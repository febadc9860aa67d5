//! Stars and XMP sidecars.
use crate::config::{mode_is, MetricParams, MetricView};
use crate::fixed::{places, push_places};
use crate::scan::{stem_raw_of, stem_spec, PhotoEntry, PhotoView};
use crate::score::PixelScores;
use crate::tally::{tally, tally_maps_into, tally_monotone, tally_none, tally_same, tally_strict, tally_sum};
use crate::text::{chars_of, decimal, decimal_reads_back, is_digit, lowered, natural_of, parse_natural, push_decimal, stands_at};
use vstd::prelude::*;
use vstd::utf8::encode_utf8;

verus! {

/// The namespace by which sidecars of this program are known.
pub const NS_FIRSTCUT: &'static str = "http://firstcut.local/ns/";

/// Declaration of the namespace of Lightroom's corrections.
pub const XMP_CRS_NS: &'static str = " xmlns:crs=\"http://ns.adobe.com/camera-raw-settings/1.0/\"";

/// Start of the correction for Lightroom.
pub const XMP_CRS_OPEN: &'static str = " crs:Exposure2=\"";

/// Start of the line of the suggested correction.
pub const XMP_EV_OPEN: &'static str = "    <firstcut:suggestedEV>";

/// End of the line of the suggested correction.
pub const XMP_EV_CLOSE: &'static str = "</firstcut:suggestedEV>\n";

/// Stars by fixed thresholds.
pub open spec fn absolute_star(total: int, m: MetricView) -> u8 {
    if total >= m.rating_5 {
        5
    } else if total >= m.rating_4 {
        4
    } else if total >= m.rating_3 {
        3
    } else if total >= m.rating_2 {
        2
    } else {
        1
    }
}

/// Stars by fixed thresholds.
pub fn rating_from_total(total: i64, m: &MetricParams) -> (r: u8)
    ensures
        r == absolute_star(total as int, m@),
{
    if total >= m.rating_5 {
        5
    } else if total >= m.rating_4 {
        4
    } else if total >= m.rating_3 {
        3
    } else if total >= m.rating_2 {
        2
    } else {
        1
    }
}

/// A higher total never gets fewer stars, in order thresholds or not.
pub proof fn absolute_stars_follow_totals(a: int, b: int, m: MetricView)
    requires
        a <= b,
    ensures
        absolute_star(a, m) <= absolute_star(b, m),
{
}

/// Those with a higher total than `t`.
pub open spec fn above(totals: Seq<i64>, t: int) -> spec_fn(int) -> bool {
    |j: int| totals[j] > t
}

/// Those with the total `t`.
pub open spec fn level_with(totals: Seq<i64>, t: int) -> spec_fn(int) -> bool {
    |j: int| totals[j] == t
}

/// Twice the mean place, from zero, of those with the total `t`.
pub open spec fn double_place(totals: Seq<i64>, t: int) -> int {
    let n = totals.len() as int;
    2 * tally(above(totals, t), 0, n) + tally(level_with(totals, t), 0, n) - 1
}

/// A place, given twice, lies before the percentile `pct` of `n` photos.
pub open spec fn before_percentile(place2: int, n: int, pct: int) -> bool {
    place2 * 50_000_000 < pct * n
}

/// Stars by place within the batch: photos with the same total share the mean of their places.
pub open spec fn relative_star(totals: Seq<i64>, m: MetricView, t: int) -> u8 {
    let p = double_place(totals, t);
    let n = totals.len() as int;
    if before_percentile(p, n, m.star_five_pct as int) {
        5
    } else if before_percentile(p, n, m.star_four_pct as int) {
        4
    } else if before_percentile(p, n, m.star_three_pct as int) {
        3
    } else if before_percentile(p, n, m.star_two_pct as int) {
        2
    } else {
        1
    }
}

/// The totals of a batch.
pub open spec fn totals_of(pairs: Seq<(String, i64)>) -> Seq<i64> {
    pairs.map_values(|p: (String, i64)| p.1)
}

/// Stars as the settings ask.
pub open spec fn star_of(totals: Seq<i64>, m: MetricView, t: int) -> u8 {
    if mode_is(m, "absolute"@) {
        absolute_star(t, m)
    } else {
        relative_star(totals, m, t)
    }
}

/// Tells whether a place, given twice, lies before a percentile.
fn is_before(place2: u128, n: usize, pct: i64) -> (r: bool)
    requires
        place2 <= 0x2_0000_0000_0000_0000,
    ensures
        r == before_percentile(place2 as int, n as int, pct as int),
{
    assert(-0x8000_0000_0000_0000_0000_0000_0000_0000 < pct * n
        < 0x8000_0000_0000_0000_0000_0000_0000_0000) by (nonlinear_arith)
        requires
            -0x8000_0000_0000_0000 <= pct <= 0x7fff_ffff_ffff_ffff,
            0 <= n <= 0xffff_ffff_ffff_ffff,
    ;
    place2 as i128 * 50_000_000 < (pct as i128) * (n as i128)
}

/// Stars by place within the batch, one for each photo, in the order of the batch.
pub fn ratings_relative(pairs: &Vec<(String, i64)>, m: &MetricParams) -> (r: Vec<(String, u8)>)
    ensures
        r.len() == pairs.len(),
        forall|i: int|
            0 <= i < r.len() ==> (#[trigger] r[i]).0@ == pairs[i].0@ && r[i].1 == relative_star(
                totals_of(pairs@),
                m@,
                pairs[i].1 as int,
            ),
{
    let n: usize = pairs.len();
    let ghost totals = totals_of(pairs@);
    let mut out: Vec<(String, u8)> = Vec::new();
    let mut i: usize = 0;
    while i < n
        invariant
            i <= n == pairs.len(),
            totals == totals_of(pairs@),
            out.len() == i,
            forall|k: int|
                0 <= k < i ==> (#[trigger] out[k]).0@ == pairs[k].0@ && out[k].1 == relative_star(
                    totals,
                    m@,
                    pairs[k].1 as int,
                ),
        decreases n - i,
    {
        let t: i64 = pairs[i].1;
        let ghost p = above(totals, t as int);
        let ghost q = level_with(totals, t as int);
        let mut higher: usize = 0;
        let mut level: usize = 0;
        let mut j: usize = 0;
        while j < n
            invariant
                i < n == pairs.len(),
                j <= n,
                totals == totals_of(pairs@),
                t == pairs[i as int].1,
                p == above(totals, t as int),
                q == level_with(totals, t as int),
                higher == tally(p, 0, j as int),
                level == tally(q, 0, j as int),
                higher + level <= j,
                j > i ==> level >= 1,
            decreases n - j,
        {
            assert(totals[j as int] == pairs[j as int].1);
            if pairs[j].1 > t {
                higher += 1;
            } else if pairs[j].1 == t {
                level += 1;
            }
            j += 1;
        }
        let place2: u128 = 2 * (higher as u128) + (level as u128 - 1);
        let star: u8 = if is_before(place2, n, m.star_five_pct) {
            5
        } else if is_before(place2, n, m.star_four_pct) {
            4
        } else if is_before(place2, n, m.star_three_pct) {
            3
        } else if is_before(place2, n, m.star_two_pct) {
            2
        } else {
            1
        };
        out.push((pairs[i].0.clone(), star));
        i += 1;
    }
    out
}

/// Stars for a batch, as the settings ask, one for each photo, in the order of the batch.
pub fn assign_ratings(pairs: &Vec<(String, i64)>, m: &MetricParams) -> (r: Vec<(String, u8)>)
    ensures
        r.len() == pairs.len(),
        forall|i: int|
            0 <= i < r.len() ==> (#[trigger] r[i]).0@ == pairs[i].0@ && r[i].1 == star_of(
                totals_of(pairs@),
                m@,
                pairs[i].1 as int,
            ),
{
    if !m.has_mode("absolute") {
        return ratings_relative(pairs, m);
    }
    let mut out: Vec<(String, u8)> = Vec::new();
    let mut i: usize = 0;
    while i < pairs.len()
        invariant
            i <= pairs.len(),
            mode_is(m@, "absolute"@),
            out.len() == i,
            forall|k: int|
                0 <= k < i ==> (#[trigger] out[k]).0@ == pairs[k].0@ && out[k].1 == star_of(
                    totals_of(pairs@),
                    m@,
                    pairs[k].1 as int,
                ),
        decreases pairs.len() - i,
    {
        out.push((pairs[i].0.clone(), rating_from_total(pairs[i].1, m)));
        i += 1;
    }
    out
}

/// Every photo gets one to five stars.
pub proof fn stars_lie_between_one_and_five(totals: Seq<i64>, m: MetricView, t: int)
    ensures
        1 <= star_of(totals, m, t) <= 5,
{
}

/// Within a batch a higher total never gets fewer stars; photos with the same total get the same.
pub proof fn relative_stars_follow_totals(totals: Seq<i64>, m: MetricView, i: int, j: int)
    requires
        0 <= i < totals.len(),
        0 <= j < totals.len(),
        totals[i] <= totals[j],
    ensures
        relative_star(totals, m, totals[i] as int) <= relative_star(totals, m, totals[j] as int),
{
    let n = totals.len() as int;
    let (a, b) = (totals[i] as int, totals[j] as int);
    if a < b {
        // Those above or level with the higher total are all above the lower one.
        let either = |k: int| totals[k] >= b;
        tally_sum(either, above(totals, b), level_with(totals, b), 0, n);
        tally_monotone(either, above(totals, a), 0, n);
        tally_none(|k: int| false, 0, n);
        tally_strict(|k: int| false, level_with(totals, a), 0, n, i);
        assert(double_place(totals, b) <= double_place(totals, a));
    }
}

/// The stars of a photo do not depend on the order of the batch, whether they go by place or as the
/// settings ask.
pub proof fn stars_do_not_depend_on_order(
    p: Seq<i64>,
    q: Seq<i64>,
    f: spec_fn(int) -> int,
    m: MetricView,
    t: int,
)
    requires
        p.len() == q.len(),
        forall|i: int| 0 <= i < q.len() ==> 0 <= #[trigger] f(i) < p.len() && q[i] == p[f(i)],
        forall|i: int, j: int|
            0 <= i < q.len() && 0 <= j < q.len() && #[trigger] f(i) == #[trigger] f(j) ==> i == j,
    ensures
        relative_star(p, m, t) == relative_star(q, m, t),
        star_of(p, m, t) == star_of(q, m, t),
{
    let n = p.len() as int;
    same_count(above(q, t), above(p, t), f, n);
    same_count(level_with(q, t), level_with(p, t), f, n);
}

/// Stars by place go by the order of the totals alone: a change that keeps which of two totals is the
/// higher one keeps all stars.
pub proof fn stars_go_by_order_alone(
    p: Seq<i64>,
    q: Seq<i64>,
    f: spec_fn(int) -> int,
    m: MetricView,
    k: int,
)
    requires
        p.len() == q.len(),
        0 <= k < p.len(),
        forall|i: int| 0 <= i < p.len() ==> #[trigger] q[i] == f(p[i] as int),
        forall|a: int, b: int| a < b ==> #[trigger] f(a) < #[trigger] f(b),
    ensures
        relative_star(p, m, p[k] as int) == relative_star(q, m, q[k] as int),
{
    let n = p.len() as int;
    let (s, t) = (p[k] as int, q[k] as int);
    assert forall|i: int| 0 <= i < n implies #[trigger] above(p, s)(i) == above(q, t)(i)
        && level_with(p, s)(i) == level_with(q, t)(i) by {
        assert(q[i] == f(p[i] as int) && q[k] == f(p[k] as int));
        if p[i] < p[k] {
            assert(f(p[i] as int) < f(p[k] as int));
        } else if p[k] < p[i] {
            assert(f(p[k] as int) < f(p[i] as int));
        }
    }
    tally_same(above(p, s), above(q, t), 0, n);
    assert forall|i: int| 0 <= i < n implies #[trigger] level_with(p, s)(i) == level_with(q, t)(i) by {
        assert(above(p, s)(i) == above(q, t)(i));
    }
    tally_same(level_with(p, s), level_with(q, t), 0, n);
}

/// A renaming of the photos keeps counts.
proof fn same_count(a: spec_fn(int) -> bool, b: spec_fn(int) -> bool, f: spec_fn(int) -> int, n: int)
    requires
        n >= 0,
        forall|i: int| 0 <= i < n ==> 0 <= #[trigger] f(i) < n && a(i) == b(f(i)),
        forall|i: int, j: int|
            0 <= i < n && 0 <= j < n && #[trigger] f(i) == #[trigger] f(j) ==> i == j,
    ensures
        tally(a, 0, n) == tally(b, 0, n),
{
    let na = |i: int| !a(i);
    let nb = |i: int| !b(i);
    let all = |i: int| true;
    tally_maps_into(a, b, f, n);
    tally_maps_into(na, nb, f, n);
    tally_sum(all, a, na, 0, n);
    tally_sum(all, b, nb, 0, n);
}

/// A correction as a whole number.
pub open spec fn wide(ev: Option<i64>) -> Option<int> {
    match ev {
        Some(v) => Some(v as int),
        None => None,
    }
}

/// Piece 0 of a sidecar.
pub const XMP_0: &'static str = "\
    <?xpacket begin=\"\u{feff}\" id=\"W5M0MpCehiHzreSzNTczkc9d\"?>\n\
    <x:xmpmeta xmlns:x=\"adobe:ns:meta/\">\n\
    \x20<rdf:RDF xmlns:rdf=\"http://www.w3.org/1999/02/22-rdf-syntax-ns#\">\n\
    \x20\x20<rdf:Description rdf:about=\"\"\n\
    \x20\x20\x20 xmlns:xmp=\"http://ns.adobe.com/xap/1.0/\"\n\
    \x20\x20\x20 xmlns:firstcut=\"";

/// Piece 1 of a sidecar.
pub const XMP_1: &'static str = "\"";

/// Piece 2 of a sidecar.
pub const XMP_2: &'static str = "\
    >\n\
    \x20\x20\x20\x20<xmp:Rating>";

/// Piece 3 of a sidecar.
pub const XMP_3: &'static str = "\
    </xmp:Rating>\n\
    \x20\x20\x20\x20<firstcut:sharpness>";

/// Piece 4 of a sidecar.
pub const XMP_4: &'static str = "\
    </firstcut:sharpness>\n\
    \x20\x20\x20\x20<firstcut:exposure>";

/// Piece 5 of a sidecar.
pub const XMP_5: &'static str = "\
    </firstcut:exposure>\n\
    \x20\x20\x20\x20<firstcut:noise>";

/// Piece 6 of a sidecar.
pub const XMP_6: &'static str = "\
    </firstcut:noise>\n\
    \x20\x20\x20\x20<firstcut:composition>";

/// Piece 7 of a sidecar.
pub const XMP_7: &'static str = "\
    </firstcut:composition>\n\
    \x20\x20\x20\x20<firstcut:aesthetic>";

/// Piece 8 of a sidecar.
pub const XMP_8: &'static str = "\
    </firstcut:aesthetic>\n\
    \x20\x20\x20\x20<firstcut:faces>";

/// Piece 9 of a sidecar.
pub const XMP_9: &'static str = "\
    </firstcut:faces>\n\
    \x20\x20\x20\x20<firstcut:total>";

/// Piece 10 of a sidecar.
pub const XMP_10: &'static str = "</firstcut:total>\n";

/// Piece 11 of a sidecar.
pub const XMP_11: &'static str = "\x20\x20\x20\x20<firstcut:burstGroup>";

/// Piece 12 of a sidecar.
pub const XMP_12: &'static str = "\
    </firstcut:burstGroup>\n\
    \x20\x20\x20\x20<firstcut:burstRank>";

/// Piece 13 of a sidecar.
pub const XMP_13: &'static str = "\
    </firstcut:burstRank>\n\
    \x20\x20\x20\x20<firstcut:burstKeep>";

/// Piece 14 of a sidecar.
pub const XMP_14: &'static str = "\
    </firstcut:burstKeep>\n\
    \x20\x20</rdf:Description>\n\
    \x20</rdf:RDF>\n\
    </x:xmpmeta>\n\
    <?xpacket end=\"w\"?>";

/// Where exposure corrections of Lightroom are declared and written, where one is suggested.
pub open spec fn crs_text(ev: Option<int>) -> Seq<char> {
    match ev {
        Some(v) => XMP_CRS_NS@ + XMP_CRS_OPEN@ + places(v, 2, false) + seq!['"'],
        None => Seq::empty(),
    }
}

/// The line of the suggested correction, where there is one.
pub open spec fn ev_line(ev: Option<int>) -> Seq<char> {
    match ev {
        Some(v) => XMP_EV_OPEN@ + places(v, 2, true) + XMP_EV_CLOSE@,
        None => Seq::empty(),
    }
}

/// The number of faces that a row names; zero where it names none.
pub open spec fn face_count(s: Seq<char>) -> nat {
    match natural_of(s) {
        Some(n) => n,
        None => 0,
    }
}

/// What stands in a sidecar up to the name of its own namespace.
pub open spec fn xmp_head() -> Seq<char> {
    XMP_0@
}

/// What stands in a sidecar behind the name of its own namespace.
pub open spec fn xmp_tail(e: PhotoView, s: PixelScores, total: int, rating: u8, ev: Option<int>) -> Seq<char> {
    XMP_1@
        + crs_text(ev)
        + XMP_2@
        + decimal(rating as nat)
        + XMP_3@
        + places(s.sharpness as int, 1, false)
        + XMP_4@
        + places(s.exposure as int, 1, false)
        + XMP_5@
        + places(s.noise as int, 1, false)
        + XMP_6@
        + places(s.composition as int, 1, false)
        + XMP_7@
        + places(s.aesthetic as int, 1, false)
        + XMP_8@
        + decimal(face_count(e.faces))
        + XMP_9@
        + places(total, 1, false)
        + XMP_10@
        + ev_line(ev)
        + XMP_11@
        + e.burst_group
        + XMP_12@
        + e.burst_rank
        + XMP_13@
        + e.burst_keep
        + XMP_14@
}

/// The text of a sidecar.
pub open spec fn xmp_text(e: PhotoView, s: PixelScores, total: int, rating: u8, ev: Option<int>) -> Seq<char> {
    xmp_head() + NS_FIRSTCUT@ + xmp_tail(e, s, total, rating, ev)
}

/// Appends the declaration and the correction for Lightroom.
fn push_crs(x: &mut String, ev: Option<i64>)
    ensures
        final(x)@ == old(x)@ + crs_text(wide(ev)),
{
    match ev {
        Some(v) => {
            x.append(XMP_CRS_NS);
            x.append(XMP_CRS_OPEN);
            push_places(x, v, 2, false);
            x.push('"');
            assert(x@ =~= old(x)@ + crs_text(Some(v as int)));
        },
        None => {
            assert(x@ =~= old(x)@ + crs_text(None));
        },
    }
}

/// Appends the line of the suggested correction.
fn push_ev_line(x: &mut String, ev: Option<i64>)
    ensures
        final(x)@ == old(x)@ + ev_line(wide(ev)),
{
    match ev {
        Some(v) => {
            x.append(XMP_EV_OPEN);
            push_places(x, v, 2, true);
            x.append(XMP_EV_CLOSE);
            assert(x@ =~= old(x)@ + ev_line(Some(v as int)));
        },
        None => {
            assert(x@ =~= old(x)@ + ev_line(None));
        },
    }
}

/// The text of the sidecar of a photo: stars, scores, faces and burst, and the suggested
/// correction where there is one.
pub fn render_xmp(e: &PhotoEntry, s: &PixelScores, total: i64, rating: u8, suggested_ev: Option<i64>) -> (r: String)
    ensures
        r@ == xmp_text(e@, *s, total as int, rating, wide(suggested_ev)),
{
    let faces: u64 = match parse_natural(&chars_of(e.faces.as_str())) {
        Some(n) => n,
        None => 0,
    };
    let mut t = String::from_str(XMP_1);
    push_crs(&mut t, suggested_ev);
    t.append(XMP_2);
    push_decimal(&mut t, rating as u64);
    t.append(XMP_3);
    push_places(&mut t, s.sharpness, 1, false);
    t.append(XMP_4);
    push_places(&mut t, s.exposure, 1, false);
    t.append(XMP_5);
    push_places(&mut t, s.noise, 1, false);
    t.append(XMP_6);
    push_places(&mut t, s.composition, 1, false);
    t.append(XMP_7);
    push_places(&mut t, s.aesthetic, 1, false);
    t.append(XMP_8);
    push_decimal(&mut t, faces);
    t.append(XMP_9);
    push_places(&mut t, total, 1, false);
    t.append(XMP_10);
    push_ev_line(&mut t, suggested_ev);
    t.append(XMP_11);
    t.append(e.burst_group.as_str());
    t.append(XMP_12);
    t.append(e.burst_rank.as_str());
    t.append(XMP_13);
    t.append(e.burst_keep.as_str());
    t.append(XMP_14);
    assert(t@ == xmp_tail(e@, *s, total as int, rating, wide(suggested_ev)));
    let mut x = String::from_str(XMP_0);
    x.append(NS_FIRSTCUT);
    x.append(t.as_str());
    x
}

/// The bytes `pat` stand at place `i`.
pub open spec fn bytes_stand_at(s: Seq<u8>, pat: Seq<u8>, i: int) -> bool {
    0 <= i && i + pat.len() <= s.len() && s.subrange(i, i + pat.len()) == pat
}

/// The bytes of a file name the namespace of this program.
pub open spec fn names_own(bytes: Seq<u8>) -> bool {
    exists|i: int| bytes_stand_at(bytes, encode_utf8(NS_FIRSTCUT@), i)
}

/// The bytes of a text are those of its parts.
proof fn encode_parts(a: Seq<char>, b: Seq<char>)
    ensures
        encode_utf8(a + b) == encode_utf8(a) + encode_utf8(b),
    decreases a.len(),
{
    if a.len() == 0 {
        assert(a + b =~= b);
        assert(encode_utf8(a) + encode_utf8(b) =~= encode_utf8(b));
    } else {
        assert((a + b).drop_first() =~= a.drop_first() + b);
        encode_parts(a.drop_first(), b);
        assert(encode_utf8(a + b) =~= encode_utf8(a) + encode_utf8(b));
    }
}

/// A sidecar of this program names its own namespace, so it is known as such when it is found
/// again, and may be written anew.
pub proof fn own_sidecars_are_known(
    e: PhotoView,
    s: PixelScores,
    total: int,
    rating: u8,
    ev: Option<int>,
)
    ensures
        names_own(encode_utf8(xmp_text(e, s, total, rating, ev))),
{
    let text = xmp_text(e, s, total, rating, ev);
    let k = xmp_head().len() as int;
    let n = NS_FIRSTCUT@.len() as int;
    let rest = text.skip(k + n);
    assert(text =~= xmp_head() + (NS_FIRSTCUT@ + rest));
    encode_parts(xmp_head(), NS_FIRSTCUT@ + rest);
    encode_parts(NS_FIRSTCUT@, rest);
    let a = encode_utf8(xmp_head());
    let b = encode_utf8(NS_FIRSTCUT@);
    let bytes = encode_utf8(text);
    assert(bytes.subrange(a.len() as int, a.len() as int + b.len() as int) =~= b);
    assert(bytes_stand_at(bytes, b, a.len() as int));
}

/// Without a suggested correction a sidecar says nothing of one.
pub proof fn no_suggestion_leaves_no_trace()
    ensures
        crs_text(None) == Seq::<char>::empty(),
        ev_line(None) == Seq::<char>::empty(),
{
}

/// What lies where the sidecar of a photo has to be written.
#[derive(Debug)]
pub enum Existing {
    /// No file.
    Absent,
    /// A file that cannot be read.
    Unreadable,
    /// A file with these bytes.
    Holds(Vec<u8>),
}

/// A file that is there may be replaced: it is one of this program.
pub open spec fn may_replace(existing: Existing) -> bool {
    match existing {
        Existing::Absent => true,
        Existing::Unreadable => false,
        Existing::Holds(bytes) => names_own(bytes@),
    }
}

/// Tells whether bytes stand somewhere in others.
fn holds_bytes(s: &Vec<u8>, pat: &[u8]) -> (r: bool)
    ensures
        r == exists|i: int| bytes_stand_at(s@, pat@, i),
{
    let n: usize = pat.len();
    if n > s.len() {
        return false;
    }
    let mut i: usize = 0;
    while i <= s.len() - n
        invariant
            n == pat.len() <= s.len(),
            i <= s.len() - n + 1,
            forall|k: int| 0 <= k < i ==> !#[trigger] bytes_stand_at(s@, pat@, k),
        decreases s.len() - n + 1 - i,
    {
        let mut j: usize = 0;
        while j < n && s[i + j] == pat[j]
            invariant
                n == pat.len() <= s.len(),
                i <= s.len() - n,
                j <= n,
                forall|k: int| 0 <= k < j ==> s@[i + k] == pat@[k],
            decreases n - j,
        {
            j += 1;
        }
        if j == n {
            assert(s@.subrange(i as int, i + n) =~= pat@);
            assert(bytes_stand_at(s@, pat@, i as int));
            return true;
        }
        assert(!bytes_stand_at(s@, pat@, i as int)) by {
            if bytes_stand_at(s@, pat@, i as int) {
                assert(s@.subrange(i as int, i + n)[j as int] == pat@[j as int]);
            }
        }
        i += 1;
    }
    assert forall|k: int| !#[trigger] bytes_stand_at(s@, pat@, k) by {}
    false
}

/// Tells whether the sidecar of a photo may be written: the photo has a score, and no file of
/// another program is there.
pub fn sidecar_allowed(e: &PhotoEntry, existing: &Existing) -> (r: bool)
    ensures
        r == (e.total_score@.len() > 0 && may_replace(*existing)),
{
    if chars_of(e.total_score.as_str()).len() == 0 {
        return false;
    }
    match existing {
        Existing::Absent => true,
        Existing::Unreadable => false,
        Existing::Holds(bytes) => holds_bytes(bytes, NS_FIRSTCUT.as_bytes()),
    }
}

/// The file name of the sidecar of a photo: its name with the extension `xmp`, as it is written.
pub fn sidecar_name(filename: &str) -> (r: String)
    ensures
        r@ == stem_spec(filename@) + ".xmp"@,
{
    let mut s = stem_raw_of(filename);
    s.append(".xmp");
    s
}

/// Thresholds in order tell the stars: a photo has at least as many stars as the highest threshold
/// that its total reaches.
pub proof fn stars_tell_the_threshold(total: int, m: MetricView)
    requires
        m.rating_2 <= m.rating_3 <= m.rating_4 <= m.rating_5,
    ensures
        absolute_star(total, m) >= 5 <==> total >= m.rating_5,
        absolute_star(total, m) >= 4 <==> total >= m.rating_4,
        absolute_star(total, m) >= 3 <==> total >= m.rating_3,
        absolute_star(total, m) >= 2 <==> total >= m.rating_2,
        1 <= absolute_star(total, m) <= 5,
{
}

/// Shares in order tell the stars by place: of `n` photos, one with `a` better and `e` equal ones,
/// itself among them, has five stars exactly where the middle of the places from `a` to `a + e - 1`
/// lies within the share for five stars, and so on down.
pub proof fn stars_tell_the_place(totals: Seq<i64>, m: MetricView, i: int)
    requires
        0 <= i < totals.len(),
        m.star_five_pct <= m.star_four_pct <= m.star_three_pct <= m.star_two_pct,
    ensures
        ({
            let n = totals.len() as int;
            let a = tally(|j: int| totals[j] > totals[i], 0, n);
            let e = tally(|j: int| totals[j] == totals[i], 0, n);
            let star = relative_star(totals, m, totals[i] as int);
            &&& e >= 1
            &&& star >= 5 <==> (a + (a + e - 1)) * 100 * 1_000_000 < 2 * (m.star_five_pct * n)
            &&& star >= 4 <==> (a + (a + e - 1)) * 100 * 1_000_000 < 2 * (m.star_four_pct * n)
            &&& star >= 3 <==> (a + (a + e - 1)) * 100 * 1_000_000 < 2 * (m.star_three_pct * n)
            &&& star >= 2 <==> (a + (a + e - 1)) * 100 * 1_000_000 < 2 * (m.star_two_pct * n)
            &&& 1 <= star <= 5
        }),
{
    let n = totals.len() as int;
    let t = totals[i] as int;
    let better = |j: int| totals[j] > totals[i];
    let equal = |j: int| totals[j] == totals[i];
    tally_same(better, above(totals, t), 0, n);
    tally_same(equal, level_with(totals, t), 0, n);
    tally_none(|j: int| false, 0, n);
    tally_strict(|j: int| false, equal, 0, n, i);
    shares_grow(m.star_five_pct as int, m.star_four_pct as int, n);
    shares_grow(m.star_four_pct as int, m.star_three_pct as int, n);
    shares_grow(m.star_three_pct as int, m.star_two_pct as int, n);
}

/// A larger share of the photos is more of them.
proof fn shares_grow(p: int, q: int, n: int)
    requires
        p <= q,
        n >= 0,
    ensures
        p * n <= q * n,
{
    assert(p * n <= q * n) by (nonlinear_arith)
        requires
            p <= q,
            n >= 0,
    ;
}

/// The settings tell which way the stars go: by fixed thresholds where they say so, else by place.
pub proof fn stars_go_as_the_settings_say(totals: Seq<i64>, m: MetricView, t: int)
    ensures
        lowered(m.star_mode) == "absolute"@ ==> star_of(totals, m, t) == absolute_star(t, m),
        lowered(m.star_mode) != "absolute"@ ==> star_of(totals, m, t) == relative_star(totals, m, t),
{
}

/// `pat` stands somewhere in `s`.
pub open spec fn stands_in(s: Seq<char>, pat: Seq<char>) -> bool {
    exists|i: int| stands_at(s, pat, i)
}

/// An element of the namespace of this program, or of that of XMP, with what it holds.
pub open spec fn element(name: Seq<char>, value: Seq<char>) -> Seq<char> {
    seq!['<'] + name + seq!['>'] + value + seq!['<', '/'] + name + seq!['>']
}

/// What stands in a text stands in every longer one.
pub proof fn stands_on(s: Seq<char>, more: Seq<char>)
    ensures
        forall|pat: Seq<char>| stands_in(s, pat) ==> #[trigger] stands_in(s + more, pat),
{
    assert forall|pat: Seq<char>| stands_in(s, pat) implies #[trigger] stands_in(s + more, pat) by {
        let i = choose|i: int| stands_at(s, pat, i);
        assert((s + more).subrange(i, i + pat.len()) =~= s.subrange(i, i + pat.len()));
        assert(stands_at(s + more, pat, i));
    }
}

/// A value between the two marks of an element makes the element.
proof fn element_stands(s: Seq<char>, a: Seq<char>, name: Seq<char>, value: Seq<char>, b: Seq<char>)
    requires
        opens(a, name),
        closes(b, name),
    ensures
        stands_in(s + a + value + b, element(name, value)),
{
    let t = s + a + value + b;
    let e = element(name, value);
    let i = s.len() + a.len() - name.len() - 2;
    let k = name.len() as int;
    let v = value.len() as int;
    assert forall|j: int| 0 <= j < e.len() implies t.subrange(i, i + e.len())[j] == e[j] by {
        if j < k + 2 {
            assert(a.skip(a.len() - k - 2)[j] == (seq!['<'] + name + seq!['>'])[j]);
            assert(e[j] == (seq!['<'] + name + seq!['>'])[j]);
        } else if j >= k + 2 + v {
            assert(b.take(k + 3)[j - k - 2 - v] == (seq!['<', '/'] + name + seq!['>'])[j - k - 2 - v]);
            assert(e[j] == (seq!['<', '/'] + name + seq!['>'])[j - k - 2 - v]);
        }
    }
    assert(t.subrange(i, i + e.len()) =~= e);
    assert(stands_at(t, e, i));
}

/// A piece of a sidecar ends with the opening mark of an element.
pub open spec fn opens(a: Seq<char>, name: Seq<char>) -> bool {
    a.len() >= name.len() + 2 && a.skip(a.len() - name.len() - 2) == seq!['<'] + name + seq!['>']
}

/// A piece of a sidecar starts with the closing mark of an element.
pub open spec fn closes(b: Seq<char>, name: Seq<char>) -> bool {
    b.len() >= name.len() + 3 && b.take(name.len() as int + 3) == seq!['<', '/'] + name + seq!['>']
}

/// The marks around the element `xmp:Rating`.
proof fn marks_of_rating()
    ensures
        opens(XMP_2@, "xmp:Rating"@),
        closes(XMP_3@, "xmp:Rating"@),
{
    reveal_strlit(">\n    <xmp:Rating>");
    reveal_strlit("</xmp:Rating>\n    <firstcut:sharpness>");
    reveal_strlit("xmp:Rating");
    let name = "xmp:Rating"@;
    assert(XMP_2@.skip(XMP_2@.len() - name.len() - 2) =~= seq!['<'] + name + seq!['>']);
    assert(XMP_3@.take(name.len() as int + 3) =~= seq!['<', '/'] + name + seq!['>']);
}

/// The marks around the element `firstcut:sharpness`.
proof fn marks_of_sharpness()
    ensures
        opens(XMP_3@, "firstcut:sharpness"@),
        closes(XMP_4@, "firstcut:sharpness"@),
{
    reveal_strlit("</xmp:Rating>\n    <firstcut:sharpness>");
    reveal_strlit("</firstcut:sharpness>\n    <firstcut:exposure>");
    reveal_strlit("firstcut:sharpness");
    let name = "firstcut:sharpness"@;
    assert(XMP_3@.skip(XMP_3@.len() - name.len() - 2) =~= seq!['<'] + name + seq!['>']);
    assert(XMP_4@.take(name.len() as int + 3) =~= seq!['<', '/'] + name + seq!['>']);
}

/// The marks around the element `firstcut:exposure`.
proof fn marks_of_exposure()
    ensures
        opens(XMP_4@, "firstcut:exposure"@),
        closes(XMP_5@, "firstcut:exposure"@),
{
    reveal_strlit("</firstcut:sharpness>\n    <firstcut:exposure>");
    reveal_strlit("</firstcut:exposure>\n    <firstcut:noise>");
    reveal_strlit("firstcut:exposure");
    let name = "firstcut:exposure"@;
    assert(XMP_4@.skip(XMP_4@.len() - name.len() - 2) =~= seq!['<'] + name + seq!['>']);
    assert(XMP_5@.take(name.len() as int + 3) =~= seq!['<', '/'] + name + seq!['>']);
}

/// The marks around the element `firstcut:noise`.
proof fn marks_of_noise()
    ensures
        opens(XMP_5@, "firstcut:noise"@),
        closes(XMP_6@, "firstcut:noise"@),
{
    reveal_strlit("</firstcut:exposure>\n    <firstcut:noise>");
    reveal_strlit("</firstcut:noise>\n    <firstcut:composition>");
    reveal_strlit("firstcut:noise");
    let name = "firstcut:noise"@;
    assert(XMP_5@.skip(XMP_5@.len() - name.len() - 2) =~= seq!['<'] + name + seq!['>']);
    assert(XMP_6@.take(name.len() as int + 3) =~= seq!['<', '/'] + name + seq!['>']);
}

/// The marks around the element `firstcut:composition`.
proof fn marks_of_composition()
    ensures
        opens(XMP_6@, "firstcut:composition"@),
        closes(XMP_7@, "firstcut:composition"@),
{
    reveal_strlit("</firstcut:noise>\n    <firstcut:composition>");
    reveal_strlit("</firstcut:composition>\n    <firstcut:aesthetic>");
    reveal_strlit("firstcut:composition");
    let name = "firstcut:composition"@;
    assert(XMP_6@.skip(XMP_6@.len() - name.len() - 2) =~= seq!['<'] + name + seq!['>']);
    assert(XMP_7@.take(name.len() as int + 3) =~= seq!['<', '/'] + name + seq!['>']);
}

/// The marks around the element `firstcut:aesthetic`.
proof fn marks_of_aesthetic()
    ensures
        opens(XMP_7@, "firstcut:aesthetic"@),
        closes(XMP_8@, "firstcut:aesthetic"@),
{
    reveal_strlit("</firstcut:composition>\n    <firstcut:aesthetic>");
    reveal_strlit("</firstcut:aesthetic>\n    <firstcut:faces>");
    reveal_strlit("firstcut:aesthetic");
    let name = "firstcut:aesthetic"@;
    assert(XMP_7@.skip(XMP_7@.len() - name.len() - 2) =~= seq!['<'] + name + seq!['>']);
    assert(XMP_8@.take(name.len() as int + 3) =~= seq!['<', '/'] + name + seq!['>']);
}

/// The marks around the element `firstcut:faces`.
proof fn marks_of_faces()
    ensures
        opens(XMP_8@, "firstcut:faces"@),
        closes(XMP_9@, "firstcut:faces"@),
{
    reveal_strlit("</firstcut:aesthetic>\n    <firstcut:faces>");
    reveal_strlit("</firstcut:faces>\n    <firstcut:total>");
    reveal_strlit("firstcut:faces");
    let name = "firstcut:faces"@;
    assert(XMP_8@.skip(XMP_8@.len() - name.len() - 2) =~= seq!['<'] + name + seq!['>']);
    assert(XMP_9@.take(name.len() as int + 3) =~= seq!['<', '/'] + name + seq!['>']);
}

/// The marks around the element `firstcut:total`.
proof fn marks_of_total()
    ensures
        opens(XMP_9@, "firstcut:total"@),
        closes(XMP_10@, "firstcut:total"@),
{
    reveal_strlit("</firstcut:faces>\n    <firstcut:total>");
    reveal_strlit("</firstcut:total>\n");
    reveal_strlit("firstcut:total");
    let name = "firstcut:total"@;
    assert(XMP_9@.skip(XMP_9@.len() - name.len() - 2) =~= seq!['<'] + name + seq!['>']);
    assert(XMP_10@.take(name.len() as int + 3) =~= seq!['<', '/'] + name + seq!['>']);
}

/// The marks around the element `firstcut:burstGroup`.
proof fn marks_of_burst_group()
    ensures
        opens(XMP_11@, "firstcut:burstGroup"@),
        closes(XMP_12@, "firstcut:burstGroup"@),
{
    reveal_strlit("    <firstcut:burstGroup>");
    reveal_strlit("</firstcut:burstGroup>\n    <firstcut:burstRank>");
    reveal_strlit("firstcut:burstGroup");
    let name = "firstcut:burstGroup"@;
    assert(XMP_11@.skip(XMP_11@.len() - name.len() - 2) =~= seq!['<'] + name + seq!['>']);
    assert(XMP_12@.take(name.len() as int + 3) =~= seq!['<', '/'] + name + seq!['>']);
}

/// The marks around the element `firstcut:burstRank`.
proof fn marks_of_burst_rank()
    ensures
        opens(XMP_12@, "firstcut:burstRank"@),
        closes(XMP_13@, "firstcut:burstRank"@),
{
    reveal_strlit("</firstcut:burstGroup>\n    <firstcut:burstRank>");
    reveal_strlit("</firstcut:burstRank>\n    <firstcut:burstKeep>");
    reveal_strlit("firstcut:burstRank");
    let name = "firstcut:burstRank"@;
    assert(XMP_12@.skip(XMP_12@.len() - name.len() - 2) =~= seq!['<'] + name + seq!['>']);
    assert(XMP_13@.take(name.len() as int + 3) =~= seq!['<', '/'] + name + seq!['>']);
}

/// The marks around the element `firstcut:burstKeep`.
proof fn marks_of_burst_keep()
    ensures
        opens(XMP_13@, "firstcut:burstKeep"@),
        closes(XMP_14@, "firstcut:burstKeep"@),
{
    reveal_strlit("</firstcut:burstRank>\n    <firstcut:burstKeep>");
    reveal_strlit("</firstcut:burstKeep>\n  </rdf:Description>\n </rdf:RDF>\n</x:xmpmeta>\n<?xpacket end=\"w\"?>");
    reveal_strlit("firstcut:burstKeep");
    let name = "firstcut:burstKeep"@;
    assert(XMP_13@.skip(XMP_13@.len() - name.len() - 2) =~= seq!['<'] + name + seq!['>']);
    assert(XMP_14@.take(name.len() as int + 3) =~= seq!['<', '/'] + name + seq!['>']);
}

/// What stands in a text stands in every one that ends with it.
proof fn stands_behind(before: Seq<char>, s: Seq<char>)
    ensures
        forall|pat: Seq<char>| stands_in(s, pat) ==> #[trigger] stands_in(before + s, pat),
{
    assert forall|pat: Seq<char>| stands_in(s, pat) implies #[trigger] stands_in(before + s, pat) by {
        let i = choose|i: int| stands_at(s, pat, i);
        let k = before.len() + i;
        assert((before + s).subrange(k, k + pat.len()) =~= s.subrange(i, i + pat.len()));
        assert(stands_at(before + s, pat, k));
    }
}

/// A sidecar names the stars of a photo, each of its scores by its own name, its total, the number of
/// its faces and its place in its burst.
pub proof fn sidecar_names_each_value(
    e: PhotoView,
    s: PixelScores,
    total: int,
    rating: u8,
    ev: Option<int>,
)
    ensures
        stands_in(
            xmp_text(e, s, total, rating, ev),
            element("xmp:Rating"@, decimal(rating as nat)),
        ),
        stands_in(
            xmp_text(e, s, total, rating, ev),
            element("firstcut:sharpness"@, places(s.sharpness as int, 1, false)),
        ),
        stands_in(
            xmp_text(e, s, total, rating, ev),
            element("firstcut:exposure"@, places(s.exposure as int, 1, false)),
        ),
        stands_in(
            xmp_text(e, s, total, rating, ev),
            element("firstcut:noise"@, places(s.noise as int, 1, false)),
        ),
        stands_in(
            xmp_text(e, s, total, rating, ev),
            element("firstcut:composition"@, places(s.composition as int, 1, false)),
        ),
        stands_in(
            xmp_text(e, s, total, rating, ev),
            element("firstcut:aesthetic"@, places(s.aesthetic as int, 1, false)),
        ),
        stands_in(
            xmp_text(e, s, total, rating, ev),
            element("firstcut:faces"@, decimal(face_count(e.faces))),
        ),
        stands_in(
            xmp_text(e, s, total, rating, ev),
            element("firstcut:total"@, places(total, 1, false)),
        ),
        stands_in(
            xmp_text(e, s, total, rating, ev),
            element("firstcut:burstGroup"@, e.burst_group),
        ),
        stands_in(
            xmp_text(e, s, total, rating, ev),
            element("firstcut:burstRank"@, e.burst_rank),
        ),
        stands_in(
            xmp_text(e, s, total, rating, ev),
            element("firstcut:burstKeep"@, e.burst_keep),
        ),
{
    let t0 = XMP_1@;
    let t1 = t0 + crs_text(ev);
    let t2 = t1 + XMP_2@;
    let t3 = t2 + decimal(rating as nat);
    let t4 = t3 + XMP_3@;
    let t5 = t4 + places(s.sharpness as int, 1, false);
    let t6 = t5 + XMP_4@;
    let t7 = t6 + places(s.exposure as int, 1, false);
    let t8 = t7 + XMP_5@;
    let t9 = t8 + places(s.noise as int, 1, false);
    let t10 = t9 + XMP_6@;
    let t11 = t10 + places(s.composition as int, 1, false);
    let t12 = t11 + XMP_7@;
    let t13 = t12 + places(s.aesthetic as int, 1, false);
    let t14 = t13 + XMP_8@;
    let t15 = t14 + decimal(face_count(e.faces));
    let t16 = t15 + XMP_9@;
    let t17 = t16 + places(total, 1, false);
    let t18 = t17 + XMP_10@;
    let t19 = t18 + ev_line(ev);
    let t20 = t19 + XMP_11@;
    let t21 = t20 + e.burst_group;
    let t22 = t21 + XMP_12@;
    let t23 = t22 + e.burst_rank;
    let t24 = t23 + XMP_13@;
    let t25 = t24 + e.burst_keep;
    let t26 = t25 + XMP_14@;
    marks_of_rating();
    element_stands(t1, XMP_2@, "xmp:Rating"@, decimal(rating as nat), XMP_3@);
    marks_of_sharpness();
    element_stands(t3, XMP_3@, "firstcut:sharpness"@, places(s.sharpness as int, 1, false), XMP_4@);
    marks_of_exposure();
    element_stands(t5, XMP_4@, "firstcut:exposure"@, places(s.exposure as int, 1, false), XMP_5@);
    marks_of_noise();
    element_stands(t7, XMP_5@, "firstcut:noise"@, places(s.noise as int, 1, false), XMP_6@);
    marks_of_composition();
    element_stands(t9, XMP_6@, "firstcut:composition"@, places(s.composition as int, 1, false), XMP_7@);
    marks_of_aesthetic();
    element_stands(t11, XMP_7@, "firstcut:aesthetic"@, places(s.aesthetic as int, 1, false), XMP_8@);
    marks_of_faces();
    element_stands(t13, XMP_8@, "firstcut:faces"@, decimal(face_count(e.faces)), XMP_9@);
    marks_of_total();
    element_stands(t15, XMP_9@, "firstcut:total"@, places(total, 1, false), XMP_10@);
    marks_of_burst_group();
    element_stands(t19, XMP_11@, "firstcut:burstGroup"@, e.burst_group, XMP_12@);
    marks_of_burst_rank();
    element_stands(t21, XMP_12@, "firstcut:burstRank"@, e.burst_rank, XMP_13@);
    marks_of_burst_keep();
    element_stands(t23, XMP_13@, "firstcut:burstKeep"@, e.burst_keep, XMP_14@);
    stands_on(t0, crs_text(ev));
    stands_on(t1, XMP_2@);
    stands_on(t2, decimal(rating as nat));
    stands_on(t3, XMP_3@);
    stands_on(t4, places(s.sharpness as int, 1, false));
    stands_on(t5, XMP_4@);
    stands_on(t6, places(s.exposure as int, 1, false));
    stands_on(t7, XMP_5@);
    stands_on(t8, places(s.noise as int, 1, false));
    stands_on(t9, XMP_6@);
    stands_on(t10, places(s.composition as int, 1, false));
    stands_on(t11, XMP_7@);
    stands_on(t12, places(s.aesthetic as int, 1, false));
    stands_on(t13, XMP_8@);
    stands_on(t14, decimal(face_count(e.faces)));
    stands_on(t15, XMP_9@);
    stands_on(t16, places(total, 1, false));
    stands_on(t17, XMP_10@);
    stands_on(t18, ev_line(ev));
    stands_on(t19, XMP_11@);
    stands_on(t20, e.burst_group);
    stands_on(t21, XMP_12@);
    stands_on(t22, e.burst_rank);
    stands_on(t23, XMP_13@);
    stands_on(t24, e.burst_keep);
    stands_on(t25, XMP_14@);
    assert(t26 == xmp_tail(e, s, total, rating, ev));
    stands_behind(xmp_head() + NS_FIRSTCUT@, t26);
    assert(xmp_text(e, s, total, rating, ev) == xmp_head() + NS_FIRSTCUT@ + t26);
}

/// A suggested correction is named twice: for Lightroom, and with its sign as a value of this program.
pub proof fn sidecar_names_the_correction(
    e: PhotoView,
    s: PixelScores,
    total: int,
    rating: u8,
    v: int,
)
    ensures
        stands_in(
            xmp_text(e, s, total, rating, Some(v)),
            element("firstcut:suggestedEV"@, places(v, 2, true)),
        ),
        stands_in(
            xmp_text(e, s, total, rating, Some(v)),
            " crs:Exposure2=\""@ + places(v, 2, false) + seq!['"'],
        ),
{
    let ev = Some(v);
    let name = "firstcut:suggestedEV"@;
    let t0 = XMP_1@;
    let t1 = t0 + crs_text(ev);
    let t2 = t1 + XMP_2@;
    let t3 = t2 + decimal(rating as nat);
    let t4 = t3 + XMP_3@;
    let t5 = t4 + places(s.sharpness as int, 1, false);
    let t6 = t5 + XMP_4@;
    let t7 = t6 + places(s.exposure as int, 1, false);
    let t8 = t7 + XMP_5@;
    let t9 = t8 + places(s.noise as int, 1, false);
    let t10 = t9 + XMP_6@;
    let t11 = t10 + places(s.composition as int, 1, false);
    let t12 = t11 + XMP_7@;
    let t13 = t12 + places(s.aesthetic as int, 1, false);
    let t14 = t13 + XMP_8@;
    let t15 = t14 + decimal(face_count(e.faces));
    let t16 = t15 + XMP_9@;
    let t17 = t16 + places(total, 1, false);
    let t18 = t17 + XMP_10@;
    let t19 = t18 + ev_line(ev);
    let t20 = t19 + XMP_11@;
    let t21 = t20 + e.burst_group;
    let t22 = t21 + XMP_12@;
    let t23 = t22 + e.burst_rank;
    let t24 = t23 + XMP_13@;
    let t25 = t24 + e.burst_keep;
    let t26 = t25 + XMP_14@;
    reveal_strlit("    <firstcut:suggestedEV>");
    reveal_strlit("</firstcut:suggestedEV>\n");
    reveal_strlit("firstcut:suggestedEV");
    assert(XMP_EV_OPEN@.skip(XMP_EV_OPEN@.len() - name.len() - 2) =~= seq!['<'] + name + seq!['>']);
    assert(XMP_EV_CLOSE@.take(name.len() as int + 3) =~= seq!['<', '/'] + name + seq!['>']);
    let none = Seq::<char>::empty();
    element_stands(none, XMP_EV_OPEN@, name, places(v, 2, true), XMP_EV_CLOSE@);
    assert(none + XMP_EV_OPEN@ + places(v, 2, true) + XMP_EV_CLOSE@ =~= ev_line(ev));
    stands_behind(t18, ev_line(ev));
    let crs = XMP_CRS_OPEN@ + places(v, 2, false) + seq!['"'];
    assert(XMP_CRS_OPEN@ == " crs:Exposure2=\""@);
    assert(XMP_CRS_NS@ + crs =~= crs_text(ev));
    assert(crs.subrange(0, crs.len() as int) =~= crs);
    assert(stands_at(crs, crs, 0));
    stands_behind(XMP_CRS_NS@, crs);
    stands_behind(t0, crs_text(ev));
    stands_on(t0, crs_text(ev));
    stands_on(t1, XMP_2@);
    stands_on(t2, decimal(rating as nat));
    stands_on(t3, XMP_3@);
    stands_on(t4, places(s.sharpness as int, 1, false));
    stands_on(t5, XMP_4@);
    stands_on(t6, places(s.exposure as int, 1, false));
    stands_on(t7, XMP_5@);
    stands_on(t8, places(s.noise as int, 1, false));
    stands_on(t9, XMP_6@);
    stands_on(t10, places(s.composition as int, 1, false));
    stands_on(t11, XMP_7@);
    stands_on(t12, places(s.aesthetic as int, 1, false));
    stands_on(t13, XMP_8@);
    stands_on(t14, decimal(face_count(e.faces)));
    stands_on(t15, XMP_9@);
    stands_on(t16, places(total, 1, false));
    stands_on(t17, XMP_10@);
    stands_on(t18, ev_line(ev));
    stands_on(t19, XMP_11@);
    stands_on(t20, e.burst_group);
    stands_on(t21, XMP_12@);
    stands_on(t22, e.burst_rank);
    stands_on(t23, XMP_13@);
    stands_on(t24, e.burst_keep);
    stands_on(t25, XMP_14@);
    assert(t26 == xmp_tail(e, s, total, rating, ev));
    stands_behind(xmp_head() + NS_FIRSTCUT@, t26);
    assert(xmp_text(e, s, total, rating, ev) == xmp_head() + NS_FIRSTCUT@ + t26);
}

/// Only files of this program are replaced: one whose bytes name its namespace somewhere. A file that
/// cannot be read stays.
pub proof fn files_of_others_stay(bytes: Vec<u8>)
    ensures
        may_replace(Existing::Absent),
        !may_replace(Existing::Unreadable),
        may_replace(Existing::Holds(bytes)) <==> exists|i: int|
            0 <= i && i + encode_utf8("http://firstcut.local/ns/"@).len() <= bytes.len()
                && #[trigger] bytes@.subrange(
                i,
                i + encode_utf8("http://firstcut.local/ns/"@).len(),
            ) == encode_utf8("http://firstcut.local/ns/"@),
{
    let pat = encode_utf8("http://firstcut.local/ns/"@);
    assert(pat == encode_utf8(NS_FIRSTCUT@));
    if names_own(bytes@) {
        let i = choose|i: int| bytes_stand_at(bytes@, pat, i);
        assert(bytes@.subrange(i, i + pat.len()) == pat);
    }
    if exists|i: int|
        0 <= i && i + pat.len() <= bytes.len() && #[trigger] bytes@.subrange(i, i + pat.len()) == pat {
        let i = choose|i: int|
            0 <= i && i + pat.len() <= bytes.len() && #[trigger] bytes@.subrange(i, i + pat.len())
                == pat;
        assert(bytes_stand_at(bytes@, pat, i));
    }
}

/// The number of faces that a row tells is the one that was written into it.
pub proof fn face_counts_read_back(n: u64)
    ensures
        face_count(decimal(n as nat)) == n,
{
    decimal_reads_back(n as nat);
    let s = decimal(n as nat);
    assert(s[0] != '+') by {
        assert(is_digit(s[0]));
    }
}

} // verus!
