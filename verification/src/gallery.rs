//! The contact sheet: a page with a picture and the scores of every photo.
use crate::fixed::{places, push_places};
use crate::order::{descending, order_descending};
use crate::text::{chars_of, same_text};
use vstd::prelude::*;

verus! {

/// The character for a number below 64.
pub open spec fn base64_char(v: int) -> char {
    if v < 26 {
        (65 + v) as char
    } else if v < 52 {
        (71 + v) as char
    } else if v < 62 {
        (v - 4) as char
    } else if v == 62 {
        '+'
    } else {
        '/'
    }
}

/// The character for a number below 64.
fn char_of(v: u32) -> (r: char)
    requires
        v < 64,
    ensures
        r == base64_char(v as int),
{
    if v < 26 {
        (65 + v as u8) as char
    } else if v < 52 {
        (71 + v as u8) as char
    } else if v < 62 {
        (v as u8 - 4) as char
    } else if v == 62 {
        '+'
    } else {
        '/'
    }
}

/// Byte `i` of the data; zero behind the end.
pub open spec fn byte_at(data: Seq<u8>, i: int) -> int {
    if i < data.len() {
        data[i] as int
    } else {
        0
    }
}

/// The 24 bits of the three bytes from `i` on.
pub open spec fn bits_at(data: Seq<u8>, i: int) -> int {
    byte_at(data, i) * 65536 + byte_at(data, i + 1) * 256 + byte_at(data, i + 2)
}

/// The four characters for the three bytes from `i` on, with `=` for bytes behind the end.
pub open spec fn quad(data: Seq<u8>, i: int) -> Seq<char> {
    let n = bits_at(data, i);
    seq![
        base64_char(n / 262144),
        base64_char(n / 4096 % 64),
        if i + 1 < data.len() { base64_char(n / 64 % 64) } else { '=' },
        if i + 2 < data.len() { base64_char(n % 64) } else { '=' },
    ]
}

/// The characters for the bytes from `i` on.
pub open spec fn base64_from(data: Seq<u8>, i: int) -> Seq<char>
    decreases data.len() + 3 - i,
{
    if i >= data.len() {
        Seq::empty()
    } else {
        quad(data, i) + base64_from(data, i + 3)
    }
}

/// Encodes bytes as base64 text.
pub fn base64_encode(data: &[u8]) -> (r: String)
    ensures
        r@ == base64_from(data@, 0),
{
    let n: usize = data.len();
    let mut out = String::new();
    let mut i: usize = 0;
    assert(out@ + base64_from(data@, 0) =~= base64_from(data@, 0));
    while i < n
        invariant
            i <= n == data.len(),
            out@ + base64_from(data@, i as int) == base64_from(data@, 0),
        decreases n - i,
    {
        let left: usize = n - i;
        let b0: u32 = data[i] as u32;
        let b1: u32 = if left > 1 { data[i + 1] as u32 } else { 0 };
        let b2: u32 = if left > 2 { data[i + 2] as u32 } else { 0 };
        let bits: u32 = b0 * 65536 + b1 * 256 + b2;
        assert(bits == bits_at(data@, i as int));
        let ghost before = out@;
        out.push(char_of(bits / 262144));
        out.push(char_of(bits / 4096 % 64));
        out.push(if left > 1 { char_of(bits / 64 % 64) } else { '=' });
        out.push(if left > 2 { char_of(bits % 64) } else { '=' });
        assert(out@ =~= before + quad(data@, i as int));
        if left > 3 {
            assert(out@ + base64_from(data@, i + 3) =~= before + base64_from(data@, i as int));
            i += 3;
        } else {
            assert(base64_from(data@, i + 3) =~= Seq::<char>::empty());
            assert(out@ + Seq::<char>::empty() =~= before + base64_from(data@, i as int));
            i = n;
        }
    }
    assert(out@ + Seq::<char>::empty() =~= out@);
    out
}

/// The number below 64 that a character stands for; zero for any other character.
pub open spec fn base64_value(c: char) -> int {
    let v = c as int;
    if 65 <= v <= 90 {
        v - 65
    } else if 97 <= v <= 122 {
        v - 71
    } else if 48 <= v <= 57 {
        v + 4
    } else if v == 43 {
        62
    } else if v == 47 {
        63
    } else {
        0
    }
}

/// The 24 bits that four characters stand for.
pub open spec fn quad_bits(q: Seq<char>) -> int {
    base64_value(q[0]) * 262144 + base64_value(q[1]) * 4096 + base64_value(q[2]) * 64
        + base64_value(q[3])
}

/// Four characters give back their bytes: the bits of the three bytes, as far as they are there.
pub proof fn base64_can_be_read_back(data: Seq<u8>, i: int)
    requires
        0 <= i < data.len(),
    ensures
        quad_bits(quad(data, i)) / 65536 == data[i],
        i + 1 < data.len() ==> quad_bits(quad(data, i)) / 256 % 256 == data[i + 1],
        i + 2 < data.len() ==> quad_bits(quad(data, i)) % 256 == data[i + 2],
{
    let n = bits_at(data, i);
    let (b0, b1, b2) = (byte_at(data, i), byte_at(data, i + 1), byte_at(data, i + 2));
    three_bytes(b0, b1, b2);
    sixes(n);
    char_and_back(n / 262144);
    char_and_back(n / 4096 % 64);
    char_and_back(n / 64 % 64);
    char_and_back(n % 64);
    let q = quad(data, i);
    assert(base64_value('=') == 0);
    assert(base64_value(q[2]) == n / 64 % 64);
    assert(base64_value(q[3]) == n % 64);
    assert(quad_bits(q) == n);
}

/// Three bytes can be told from their bits, and bytes that are zero leave the last bits empty.
proof fn three_bytes(a: int, b: int, c: int)
    requires
        0 <= a < 256,
        0 <= b < 256,
        0 <= c < 256,
    ensures
        ({
            let n = a * 65536 + b * 256 + c;
            &&& 0 <= n < 16777216
            &&& n / 65536 == a
            &&& n / 256 % 256 == b
            &&& n % 256 == c
            &&& b == 0 && c == 0 ==> n / 64 % 64 == 0
            &&& c == 0 ==> n % 64 == 0
        }),
{
}

/// 24 bits are four times six bits.
proof fn sixes(n: int)
    requires
        0 <= n < 16777216,
    ensures
        n == (n / 262144) * 262144 + (n / 4096 % 64) * 4096 + (n / 64 % 64) * 64 + n % 64,
        0 <= n / 262144 < 64,
{
}

/// A character stands for the number it was made from.
proof fn char_and_back(v: int)
    requires
        0 <= v < 64,
    ensures
        base64_value(base64_char(v)) == v,
{
}

/// One photo of a contact sheet.
#[derive(Debug)]
pub struct GalleryRow {
    pub filename: String,
    pub iso: String,
    pub faces: String,
    pub burst_size: String,
    pub burst_rank: String,
    pub burst_keep: String,
    pub total: i64,
    pub sharpness: i64,
    pub exposure: i64,
    pub noise: i64,
    pub composition: i64,
    pub aesthetic: i64,
}

/// The class of a total, from `g5` for the best to `g1`.
pub open spec fn grade_of(total: int) -> Seq<char> {
    if total >= 70_000_000 {
        "g5"@
    } else if total >= 60_000_000 {
        "g4"@
    } else if total >= 50_000_000 {
        "g3"@
    } else if total >= 40_000_000 {
        "g2"@
    } else {
        "g1"@
    }
}

/// The class of a total.
pub fn grade(total: i64) -> (r: &'static str)
    ensures
        r@ == grade_of(total as int),
{
    if total >= 70_000_000 {
        "g5"
    } else if total >= 60_000_000 {
        "g4"
    } else if total >= 50_000_000 {
        "g3"
    } else if total >= 40_000_000 {
        "g2"
    } else {
        "g1"
    }
}

/// What the page says of the burst of a photo.
pub open spec fn burst_cell_of(r: GalleryRow) -> Seq<char> {
    if r.burst_rank@.len() == 0 {
        "—"@
    } else if r.burst_keep@ == "true"@ {
        "<span class=\"keep\">组内 "@ + r.burst_rank@ + "/"@ + r.burst_size@ + " ✓</span>"@
    } else {
        "<span class=\"drop\">组内 "@ + r.burst_rank@ + "/"@ + r.burst_size@ + " ✗</span>"@
    }
}

/// What the page says of the burst of a photo.
pub fn burst_cell(r: &GalleryRow) -> (s: String)
    ensures
        s@ == burst_cell_of(*r),
{
    if chars_of(r.burst_rank.as_str()).len() == 0 {
        return String::from_str("—");
    }
    let keep = same_text(r.burst_keep.as_str(), "true");
    let mut s = String::from_str(
        if keep {
            "<span class=\"keep\">组内 "
        } else {
            "<span class=\"drop\">组内 "
        },
    );
    s.append(r.burst_rank.as_str());
    s.append("/");
    s.append(r.burst_size.as_str());
    s.append(
        if keep {
            " ✓</span>"
        } else {
            " ✗</span>"
        },
    );
    s
}

/// The picture of a photo, from its base64 text.
pub open spec fn picture_of(b64: Option<Seq<char>>) -> Seq<char> {
    match b64 {
        Some(b) => "<img loading=\"lazy\" src=\"data:image/jpeg;base64,"@ + b + "\">"@,
        None => "(缩略图失败)"@,
    }
}

/// Tells from the report whether a file is shown: RAW files are not, as their JPG files are.
pub fn is_shown(is_raw: &str) -> (r: bool)
    ensures
        r == (is_raw@ != "true"@),
{
    !same_text(is_raw, "true")
}

/// The line of a photo.
pub open spec fn row_of(r: GalleryRow, b64: Option<Seq<char>>) -> Seq<char> {
    "<tr><td>"@ + picture_of(b64) + "<br><small>"@ + r.filename@
        + "</small></td><td class=\"score "@ + grade_of(r.total as int) + "\">"@ + places(
        r.total as int,
        1,
        false,
    ) + SCORE_CELL@ + places(r.sharpness as int, 1, false) + SCORE_CELL@ + places(
        r.exposure as int,
        1,
        false,
    ) + SCORE_CELL@ + places(r.noise as int, 1, false) + SCORE_CELL@ + places(
        r.composition as int,
        1,
        false,
    ) + SCORE_CELL@ + places(r.aesthetic as int, 1, false) + PLAIN_CELL@ + r.iso@ + PLAIN_CELL@
        + r.faces@ + PLAIN_CELL@ + burst_cell_of(r) + "</td></tr>\n"@
}

/// Between two scores.
pub const SCORE_CELL: &'static str = "</td><td class=\"score\">";

/// Between two other cells.
pub const PLAIN_CELL: &'static str = "</td><td>";

/// The line of a photo. `b64` is its picture as base64 text, where there is one.
pub fn row_html(r: &GalleryRow, b64: Option<&String>) -> (s: String)
    ensures
        s@ == row_of(
            *r,
            match b64 {
                Some(b) => Some(b@),
                None => None,
            },
        ),
{
    let mut picture = String::new();
    match b64 {
        Some(b) => {
            picture = String::from_str("<img loading=\"lazy\" src=\"data:image/jpeg;base64,");
            picture.append(b.as_str());
            picture.append("\">");
        },
        None => {
            picture = String::from_str("(缩略图失败)");
        },
    }
    let mut s = String::from_str("<tr><td>");
    s.append(picture.as_str());
    s.append("<br><small>");
    s.append(r.filename.as_str());
    s.append("</small></td><td class=\"score ");
    s.append(grade(r.total));
    s.append("\">");
    push_places(&mut s, r.total, 1, false);
    s.append(SCORE_CELL);
    push_places(&mut s, r.sharpness, 1, false);
    s.append(SCORE_CELL);
    push_places(&mut s, r.exposure, 1, false);
    s.append(SCORE_CELL);
    push_places(&mut s, r.noise, 1, false);
    s.append(SCORE_CELL);
    push_places(&mut s, r.composition, 1, false);
    s.append(SCORE_CELL);
    push_places(&mut s, r.aesthetic, 1, false);
    s.append(PLAIN_CELL);
    s.append(r.iso.as_str());
    s.append(PLAIN_CELL);
    s.append(r.faces.as_str());
    s.append(PLAIN_CELL);
    s.append(burst_cell(r).as_str());
    s.append("</td></tr>\n");
    s
}

/// The totals of photos.
pub open spec fn row_totals(rows: Seq<GalleryRow>) -> Seq<i64> {
    rows.map_values(|r: GalleryRow| r.total)
}

/// The picture of photo number `i`.
pub open spec fn picture_at(pictures: Seq<Option<String>>, i: int) -> Option<Seq<char>> {
    match pictures[i] {
        Some(b) => Some(b@),
        None => None,
    }
}

/// The lines of the first `k` photos of a list.
pub open spec fn lines_of(
    rows: Seq<GalleryRow>,
    pictures: Seq<Option<String>>,
    order: Seq<int>,
    k: int,
) -> Seq<char>
    decreases k,
{
    if k <= 0 {
        Seq::empty()
    } else {
        lines_of(rows, pictures, order, k - 1) + row_of(
            rows[order[k - 1]],
            picture_at(pictures, order[k - 1]),
        )
    }
}

/// The lines of all photos, the highest total first; photos with the same total keep their order.
pub fn page_lines(rows: &Vec<GalleryRow>, pictures: &Vec<Option<String>>) -> (s: String)
    requires
        rows.len() == pictures.len(),
    ensures
        s@ == lines_of(
            rows@,
            pictures@,
            descending(row_totals(rows@), rows.len() as int),
            rows.len() as int,
        ),
{
    let mut totals: Vec<i64> = Vec::new();
    let mut i: usize = 0;
    while i < rows.len()
        invariant
            i <= rows.len(),
            totals.len() == i,
            forall|k: int| 0 <= k < i ==> #[trigger] totals[k] == rows[k].total,
        decreases rows.len() - i,
    {
        totals.push(rows[i].total);
        i += 1;
    }
    assert(totals@ =~= row_totals(rows@));
    let order = order_descending(&totals);
    let ghost o = descending(row_totals(rows@), rows.len() as int);
    let mut s = String::new();
    let mut k: usize = 0;
    assert(s@ =~= lines_of(rows@, pictures@, o, 0));
    while k < order.len()
        invariant
            k <= order.len() == rows.len() == pictures.len(),
            o == order@.map_values(|i: usize| i as int),
            forall|k: int| 0 <= k < order.len() ==> #[trigger] order[k] < rows.len(),
            s@ == lines_of(rows@, pictures@, o, k as int),
        decreases order.len() - k,
    {
        assert(o[k as int] == order[k as int]);
        let j: usize = order[k];
        let line = row_html(&rows[j], pictures[j].as_ref());
        s.append(line.as_str());
        k += 1;
    }
    s
}

/// The classes go by tens from 40 to 70.
pub proof fn grades_go_by_tens(total: int)
    ensures
        total >= 70_000_000 <==> grade_of(total) == "g5"@,
        60_000_000 <= total < 70_000_000 <==> grade_of(total) == "g4"@,
        50_000_000 <= total < 60_000_000 <==> grade_of(total) == "g3"@,
        40_000_000 <= total < 50_000_000 <==> grade_of(total) == "g2"@,
        total < 40_000_000 <==> grade_of(total) == "g1"@,
{
    reveal_strlit("g5");
    reveal_strlit("g4");
    reveal_strlit("g3");
    reveal_strlit("g2");
    reveal_strlit("g1");
    assert("g5"@[1] == '5' && "g4"@[1] == '4' && "g3"@[1] == '3' && "g2"@[1] == '2' && "g1"@[1] == '1');
}

/// The alphabet of base64: capitals, small letters, digits, plus and slash.
pub proof fn alphabet_of_base64(v: int)
    ensures
        0 <= v < 26 ==> base64_char(v) as int == 'A' as int + v,
        26 <= v < 52 ==> base64_char(v) as int == 'a' as int + (v - 26),
        52 <= v < 62 ==> base64_char(v) as int == '0' as int + (v - 52),
        base64_char(62) == '+',
        base64_char(63) == '/',
{
}

/// Three bytes become four characters, and one or two at the end too, filled up with `=`.
pub proof fn base64_goes_by_threes(data: Seq<u8>, i: int)
    requires
        0 <= i < data.len(),
    ensures
        base64_from(data, i).take(4) == quad(data, i),
        base64_from(data, i).skip(4) == base64_from(data, i + 3),
        base64_from(data, i).len() == 4 + base64_from(data, i + 3).len(),
        i + 3 >= data.len() ==> base64_from(data, i).len() == 4,
        i + 1 == data.len() ==> quad(data, i)[2] == '=' && quad(data, i)[3] == '=',
        i + 2 == data.len() ==> quad(data, i)[2] != '=' && quad(data, i)[3] == '=',
{
    let n = bits_at(data, i);
    assert(base64_from(data, i) == quad(data, i) + base64_from(data, i + 3));
    assert(base64_from(data, i).take(4) =~= quad(data, i));
    assert(base64_from(data, i).skip(4) =~= base64_from(data, i + 3));
    assert(0 <= n / 64 % 64 < 64);
    alphabet_of_base64(n / 64 % 64);
}

} // verus!
