//! Capture times: from EXIF text to seconds on a calendar without time zones.
use crate::text::{all_digits, chars_of, copy_range, digits_value, find_first, first_of, first_of_range, integer_of, is_digit, is_space, parse_integer, piece, piece_of, pieces_end_at_the_cuts, trim, trimmed};
use vstd::prelude::*;

verus! {

/// Leap years of the Gregorian calendar.
pub open spec fn is_leap(y: int) -> bool {
    y % 4 == 0 && (y % 100 != 0 || y % 400 == 0)
}

/// The number of days of a month; zero where `m` is no month.
pub open spec fn month_days(y: int, m: int) -> int {
    if m == 1 || m == 3 || m == 5 || m == 7 || m == 8 || m == 10 || m == 12 {
        31
    } else if m == 4 || m == 6 || m == 9 || m == 11 {
        30
    } else if m == 2 {
        if is_leap(y) {
            29
        } else {
            28
        }
    } else {
        0
    }
}

/// The days of a year that lie before its month `m`.
pub open spec fn days_before_month(y: int, m: int) -> int
    decreases m,
{
    if m <= 1 {
        0
    } else {
        days_before_month(y, m - 1) + month_days(y, m - 1)
    }
}

/// The days from 0001-01-01 to the first day of year `y`.
pub open spec fn days_before_year(y: int) -> int {
    365 * (y - 1) + (y - 1) / 4 - (y - 1) / 100 + (y - 1) / 400
}

/// The days from 1970-01-01 to the given date.
pub open spec fn day_number(y: int, m: int, d: int) -> int {
    days_before_year(y) + days_before_month(y, m) + d - 1 - 719162
}

/// The date exists in the calendar.
pub open spec fn is_date(y: int, m: int, d: int) -> bool {
    1 <= m <= 12 && 1 <= d <= month_days(y, m)
}

/// The number of days of a month; zero where `m` is no month.
pub fn days_in_month(y: i64, m: i64) -> (r: i64)
    ensures
        r == month_days(y as int, m as int),
{
    if m == 1 || m == 3 || m == 5 || m == 7 || m == 8 || m == 10 || m == 12 {
        31
    } else if m == 4 || m == 6 || m == 9 || m == 11 {
        30
    } else if m == 2 {
        if y % 4 == 0 && (y % 100 != 0 || y % 400 == 0) {
            29
        } else {
            28
        }
    } else {
        0
    }
}

/// The days from 1970-01-01 to the given date.
pub fn days_from_civil(y: i64, m: i64, d: i64) -> (r: i64)
    requires
        -1_000_000_000_000 <= y <= 1_000_000_000_000,
        is_date(y as int, m as int, d as int),
    ensures
        r == day_number(y as int, m as int, d as int),
{
    let z: i64 = if m <= 2 { y - 1 } else { y };
    let era: i64 = if z >= 0 { z / 400 } else { (z - 399) / 400 };
    let yoe: i64 = z - era * 400;
    let mp: i64 = (m + 9) % 12;
    let doy: i64 = (153 * mp + 2) / 5 + d - 1;
    let doe: i64 = yoe * 365 + yoe / 4 - yoe / 100 + doy;
    proof {
        era_days(z as int, era as int, yoe as int);
        year_length(y as int);
        month_offset(y as int, m as int);
    }
    era * 146097 + doe - 719468
}

/// Counting by eras of 400 years gives the days before the year after `z`.
proof fn era_days(z: int, era: int, yoe: int)
    requires
        era == z / 400,
        yoe == z % 400,
    ensures
        era * 146097 + yoe * 365 + yoe / 4 - yoe / 100 == days_before_year(z + 1),
{
}

/// A year has 365 days, a leap year one more.
pub proof fn year_length(y: int)
    ensures
        days_before_year(y + 1) == days_before_year(y) + 365 + if is_leap(y) {
            1int
        } else {
            0int
        },
{
}

/// The days before a month in closed form, counted from March.
proof fn month_offset(y: int, m: int)
    requires
        1 <= m <= 12,
    ensures
        m <= 2 ==> days_before_month(y, m) == (153 * ((m + 9) % 12) + 2) / 5 - 306,
        m > 2 ==> days_before_month(y, m) == (153 * ((m + 9) % 12) + 2) / 5 + 59 + if is_leap(y) {
            1int
        } else {
            0int
        },
{
    reveal_with_fuel(days_before_month, 13);
}

/// The day count starts at 1970-01-01.
pub proof fn epoch_is_day_zero()
    ensures
        day_number(1970, 1, 1) == 0,
{
    reveal_with_fuel(days_before_month, 2);
}

/// The day after a date, in the same month, the next month or the next year, has the next number.
pub proof fn next_day_has_next_number(y: int, m: int, d: int)
    requires
        is_date(y, m, d),
    ensures
        d < month_days(y, m) ==> day_number(y, m, d + 1) == day_number(y, m, d) + 1,
        d == month_days(y, m) && m < 12 ==> day_number(y, m + 1, 1) == day_number(y, m, d) + 1,
        d == month_days(y, m) && m == 12 ==> day_number(y + 1, 1, 1) == day_number(y, m, d) + 1,
{
    if m == 12 {
        year_length(y);
        month_offset(y, 12);
        assert(days_before_month(y + 1, 1) == 0);
    }
}

/// What the parts of a date and a time come to, in seconds since 1970-01-01 00:00:00: none where
/// a field is out of range or the instant does not fit 64 bits.
pub open spec fn instant(y: int, m: int, d: int, hh: int, mm: int, ss: int) -> Option<int> {
    let t = day_number(y, m, d) * 86400 + hh * 3600 + mm * 60 + ss;
    if is_date(y, m, d) && 0 <= hh < 24 && 0 <= mm < 60 && 0 <= ss < 60 && t <= i64::MAX {
        Some(t)
    } else {
        None
    }
}

/// The integer that a piece of text holds, where there is such a piece.
pub open spec fn piece_integer(p: Option<Seq<char>>) -> Option<int> {
    match p {
        Some(s) => integer_of(s),
        None => None,
    }
}

/// The instant that a capture time names: date and time parted by the first blank or `T`, the
/// date cut at `:` and `-`, the time at `:`, the seconds zero where they are left out.
pub open spec fn datetime_of(s: Seq<char>) -> Option<int> {
    let t = trimmed(s);
    let p = first_of(t, ' ', 'T', 0);
    if p >= t.len() {
        None
    } else {
        let date = t.take(p);
        let time = t.skip(p + 1);
        let y = piece_integer(piece_of(date, ':', '-', 0));
        let m = piece_integer(piece_of(date, ':', '-', 1));
        let d = piece_integer(piece_of(date, ':', '-', 2));
        let hh = piece_integer(piece_of(time, ':', ':', 0));
        let mm = piece_integer(piece_of(time, ':', ':', 1));
        let ss = if piece_of(time, ':', ':', 2) is None {
            Some(0int)
        } else {
            piece_integer(piece_of(time, ':', ':', 2))
        };
        if y is Some && m is Some && d is Some && hh is Some && mm is Some && ss is Some {
            instant(y->0, m->0, d->0, hh->0, mm->0, ss->0)
        } else {
            None
        }
    }
}

/// Reads the integer in piece number `k` of the text, cut at `a` and `b`.
fn read_piece(v: &Vec<char>, a: char, b: char, k: usize) -> (r: Option<i64>)
    ensures
        r is Some == piece_integer(piece_of(v@, a, b, k as nat)) is Some,
        r is Some ==> r->0 == piece_integer(piece_of(v@, a, b, k as nat))->0,
{
    match piece(v, a, b, k) {
        Some(p) => parse_integer(&p),
        None => None,
    }
}

/// A date never holds a minus sign in front of its year: `-` parts the fields.
proof fn year_not_negative(s: Seq<char>)
    requires
        piece_integer(piece_of(s, ':', '-', 0)) is Some,
    ensures
        piece_integer(piece_of(s, ':', '-', 0))->0 >= 0,
{
    let p = first_of(s, ':', '-', 0);
    first_of_range(s, ':', '-', 0);
    let y = s.take(p);
    if y.len() > 0 {
        assert(s[0] != '-') by {
            if s[0] == '-' {
                assert(p == 0);
            }
        }
        let digits = if y[0] == '+' { y.skip(1) } else { y };
        digits_not_negative(digits);
    }
}

/// Digits write no negative number.
proof fn digits_not_negative(s: Seq<char>)
    requires
        all_digits(s),
    ensures
        digits_value(s) >= 0,
    decreases s.len(),
{
    assert('0' <= s.last());
    if s.len() > 1 {
        assert(all_digits(s.drop_last())) by {
            assert forall|i: int| 0 <= i < s.len() - 1 implies crate::text::is_digit(
                #[trigger] s.drop_last()[i],
            ) by {
                assert(crate::text::is_digit(s[i]));
            }
        }
        digits_not_negative(s.drop_last());
    } else {
        assert(s.drop_last().len() == 0);
        assert(digits_value(s.drop_last()) == 0);
    }
}

/// Bounds on the day number of a year that is not negative.
proof fn day_number_bounds(y: int, m: int, d: int)
    requires
        y >= 0,
        is_date(y, m, d),
    ensures
        365 * (y - 1) - 800_000 <= day_number(y, m, d) <= 366 * y,
{
    reveal_with_fuel(days_before_month, 13);
}

/// Turns a capture time into seconds since 1970-01-01 00:00:00, without a time zone.
pub fn parse_datetime(s: &str) -> (r: Option<i64>)
    ensures
        r is Some == datetime_of(s@) is Some,
        r is Some ==> r->0 == datetime_of(s@)->0,
{
    let all = chars_of(s);
    let t = trim(&all);
    let p: usize = find_first(&t, ' ', 'T', 0);
    if p >= t.len() {
        return None;
    }
    let date = copy_range(&t, 0, p);
    let time = copy_range(&t, p + 1, t.len());
    assert(date@ =~= t@.take(p as int));
    assert(time@ =~= t@.skip(p as int + 1));
    let y: i64 = match read_piece(&date, ':', '-', 0) {
        Some(v) => v,
        None => return None,
    };
    let m: i64 = match read_piece(&date, ':', '-', 1) {
        Some(v) => v,
        None => return None,
    };
    let d: i64 = match read_piece(&date, ':', '-', 2) {
        Some(v) => v,
        None => return None,
    };
    let hh: i64 = match read_piece(&time, ':', ':', 0) {
        Some(v) => v,
        None => return None,
    };
    let mm: i64 = match read_piece(&time, ':', ':', 1) {
        Some(v) => v,
        None => return None,
    };
    let ss: i64 = match piece(&time, ':', ':', 2) {
        Some(text) => match parse_integer(&text) {
            Some(v) => v,
            None => return None,
        },
        None => 0,
    };
    if m < 1 || m > 12 {
        return None;
    }
    let days: i64 = days_in_month(y, m);
    if d < 1 || d > days || hh < 0 || hh >= 24 || mm < 0 || mm >= 60 || ss < 0 || ss >= 60 {
        return None;
    }
    proof {
        year_not_negative(date@);
        day_number_bounds(y as int, m as int, d as int);
    }
    if y > 1_000_000_000_000 {
        return None;
    }
    let secs: i128 = (days_from_civil(y, m, d) as i128) * 86400 + (hh * 3600 + mm * 60 + ss) as i128;
    if secs > i64::MAX as i128 {
        None
    } else {
        Some(secs as i64)
    }
}

/// One date comes before another.
pub open spec fn is_earlier(y: int, m: int, d: int, y2: int, m2: int, d2: int) -> bool {
    y < y2 || (y == y2 && (m < m2 || (m == m2 && d < d2)))
}

/// Later years start later.
proof fn years_go_on(y: int, y2: int)
    requires
        y <= y2,
    ensures
        days_before_year(y) <= days_before_year(y2),
    decreases y2 - y,
{
    if y < y2 {
        years_go_on(y, y2 - 1);
        year_length(y2 - 1);
    }
}

/// Later months of a year start later, and the last day of a month lies before the next month.
proof fn months_go_on(y: int, m: int, m2: int)
    requires
        1 <= m < m2 <= 13,
    ensures
        days_before_month(y, m) + month_days(y, m) <= days_before_month(y, m2),
    decreases m2 - m,
{
    if m + 1 < m2 {
        months_go_on(y, m, m2 - 1);
    }
}

/// An earlier date has a lower number.
pub proof fn earlier_dates_have_lower_numbers(y: int, m: int, d: int, y2: int, m2: int, d2: int)
    requires
        is_date(y, m, d),
        is_date(y2, m2, d2),
        is_earlier(y, m, d, y2, m2, d2),
    ensures
        day_number(y, m, d) < day_number(y2, m2, d2),
{
    if y < y2 {
        years_go_on(y + 1, y2);
        year_length(y);
        months_go_on(y, m, 13);
        month_offset(y, 12);
        assert(days_before_month(y, 13) == days_before_month(y, 12) + 31);
        if m2 > 1 {
            months_go_on(y2, 1, m2);
        }
    } else if m < m2 {
        months_go_on(y, m, m2);
    }
}

/// The text with a colon for every dash.
pub open spec fn colons(s: Seq<char>) -> Seq<char> {
    s.map_values(|c: char| if c == '-' { ':' } else { c })
}

/// Colons for dashes do not change where the fields of a date end.
proof fn same_first_cut(s: Seq<char>, from: int)
    requires
        0 <= from <= s.len(),
    ensures
        first_of(s, ':', '-', from) == first_of(colons(s), ':', '-', from),
        forall|i: int| from <= i < first_of(s, ':', '-', from) ==> s[i] != '-' && s[i] != ':',
    decreases s.len() - from,
{
    if from < s.len() && s[from] != ':' && s[from] != '-' {
        same_first_cut(s, from + 1);
    }
}

/// Colons for dashes do not change the fields of a date.
proof fn same_pieces(s: Seq<char>, k: nat)
    ensures
        piece_of(s, ':', '-', k) == piece_of(colons(s), ':', '-', k),
    decreases k,
{
    let p = first_of(s, ':', '-', 0);
    first_of_range(s, ':', '-', 0);
    same_first_cut(s, 0);
    if k == 0 {
        assert(colons(s).take(p) =~= s.take(p));
    } else if p < s.len() {
        assert(colons(s).skip(p + 1) =~= colons(s.skip(p + 1)));
        same_pieces(s.skip(p + 1), (k - 1) as nat);
    }
}

/// Text that neither starts nor ends with white space stays as it is.
proof fn nothing_to_trim(s: Seq<char>)
    requires
        s.len() > 0,
        !is_space(s[0]),
        !is_space(s.last()),
    ensures
        trimmed(s) == s,
{
}

/// The first blank or `T` of a text is found where it stands.
proof fn cut_found(s: Seq<char>, p: int, from: int)
    requires
        0 <= from <= p < s.len(),
        s[p] == ' ' || s[p] == 'T',
        forall|i: int| from <= i < p ==> s[i] != ' ' && s[i] != 'T',
    ensures
        first_of(s, ' ', 'T', from) == p,
    decreases p - from,
{
    if from < p {
        cut_found(s, p, from + 1);
    }
}

/// It makes no difference whether the fields of a date are parted by colons or by dashes.
pub proof fn dashes_are_as_good_as_colons(date: Seq<char>, time: Seq<char>)
    requires
        date.len() > 0,
        !is_space(date[0]),
        forall|i: int| 0 <= i < date.len() ==> date[i] != ' ' && date[i] != 'T',
        time.len() > 0,
        !is_space(time.last()),
    ensures
        datetime_of(date + seq![' '] + time) == datetime_of(colons(date) + seq![' '] + time),
{
    let other = colons(date);
    let (a, b) = (date + seq![' '] + time, other + seq![' '] + time);
    let p = date.len() as int;
    assert((date + seq![' ']).len() == p + 1 && (other + seq![' ']).len() == p + 1);
    assert(a[0] == date[0] && b[0] == other[0]);
    assert(a.last() == time.last() && b.last() == time.last());
    assert(!is_space(other[0]));
    nothing_to_trim(a);
    nothing_to_trim(b);
    assert(a[p] == ' ' && b[p] == ' ');
    assert forall|i: int| 0 <= i < p implies a[i] != ' ' && a[i] != 'T' by {
        assert(a[i] == date[i]);
    }
    assert forall|i: int| 0 <= i < p implies b[i] != ' ' && b[i] != 'T' by {
        assert(b[i] == other[i]);
        assert(date[i] != ' ');
    }
    cut_found(a, p, 0);
    cut_found(b, p, 0);
    assert(a.take(p) =~= date && b.take(p) =~= other);
    assert(a.skip(p + 1) =~= time && b.skip(p + 1) =~= time);
    same_pieces(date, 0);
    same_pieces(date, 1);
    same_pieces(date, 2);
}

/// An instant counts the seconds: a minute has 60 of them, an hour 60 minutes, a day 24 hours. There is
/// none for a date or a time of day that does not exist.
pub proof fn instants_count_seconds(y: int, m: int, d: int, hh: int, mm: int, ss: int)
    ensures
        instant(y, m, d, hh, mm, ss) is Some ==> {
            let t = instant(y, m, d, hh, mm, ss)->0;
            &&& t == 60 * (60 * (24 * day_number(y, m, d) + hh) + mm) + ss
            &&& is_date(y, m, d)
            &&& 0 <= hh <= 23
            &&& 0 <= mm <= 59
            &&& 0 <= ss <= 59
        },
        is_date(y, m, d) && 0 <= y <= 9999 && 0 <= hh <= 23 && 0 <= mm <= 59 && 0 <= ss <= 59
            ==> instant(y, m, d, hh, mm, ss) is Some,
{
    if is_date(y, m, d) && y >= 0 {
        day_number_bounds(y, m, d);
    }
}

/// A text that writes date and time in digits names that instant: year, month and day parted by colons,
/// a blank, hours, minutes and seconds parted by colons. Without seconds it is the full minute.
pub proof fn digits_name_the_instant(
    y: Seq<char>,
    m: Seq<char>,
    d: Seq<char>,
    hh: Seq<char>,
    mm: Seq<char>,
    ss: Seq<char>,
)
    requires
        is_small_number(y),
        is_small_number(m),
        is_small_number(d),
        is_small_number(hh),
        is_small_number(mm),
        is_small_number(ss),
    ensures
        ({
            let date = y + seq![':'] + (m + seq![':'] + d);
            let short = hh + seq![':'] + mm;
            let long = hh + seq![':'] + (mm + seq![':'] + ss);
            &&& datetime_of(date + seq![' '] + long) == instant(
                digits_value(y),
                digits_value(m),
                digits_value(d),
                digits_value(hh),
                digits_value(mm),
                digits_value(ss),
            )
            &&& datetime_of(date + seq![' '] + short) == instant(
                digits_value(y),
                digits_value(m),
                digits_value(d),
                digits_value(hh),
                digits_value(mm),
                0,
            )
        }),
{
    let date = y + seq![':'] + (m + seq![':'] + d);
    let short = hh + seq![':'] + mm;
    let long = hh + seq![':'] + (mm + seq![':'] + ss);
    pieces_end_at_the_cuts(y, ':', m + seq![':'] + d, ':', '-', 0);
    pieces_end_at_the_cuts(y, ':', m + seq![':'] + d, ':', '-', 1);
    pieces_end_at_the_cuts(m, ':', d, ':', '-', 0);
    pieces_end_at_the_cuts(d, ':', d, ':', '-', 0);
    pieces_end_at_the_cuts(hh, ':', mm + seq![':'] + ss, ':', ':', 0);
    pieces_end_at_the_cuts(hh, ':', mm + seq![':'] + ss, ':', ':', 1);
    pieces_end_at_the_cuts(mm, ':', ss, ':', ':', 0);
    pieces_end_at_the_cuts(ss, ':', ss, ':', ':', 0);
    pieces_end_at_the_cuts(hh, ':', mm, ':', ':', 0);
    pieces_end_at_the_cuts(hh, ':', mm, ':', ':', 1);
    pieces_end_at_the_cuts(mm, ':', mm, ':', ':', 0);
    parted(date, long);
    parted(date, short);
    number_is_integer(y);
    number_is_integer(m);
    number_is_integer(d);
    number_is_integer(hh);
    number_is_integer(mm);
    number_is_integer(ss);
}

/// Digits that write a number of 64 bits.
pub open spec fn is_small_number(s: Seq<char>) -> bool {
    all_digits(s) && digits_value(s) <= i64::MAX
}

/// Digits are read as the number that they write.
proof fn number_is_integer(s: Seq<char>)
    requires
        is_small_number(s),
    ensures
        integer_of(s) == Some(digits_value(s)),
{
    digits_not_negative(s);
    assert(is_digit(s[0]));
}

/// Date and time are parted at the blank.
proof fn parted(date: Seq<char>, time: Seq<char>)
    requires
        date.len() > 0,
        time.len() > 0,
        forall|i: int| 0 <= i < date.len() ==> is_digit(#[trigger] date[i]) || date[i] == ':',
        forall|i: int| 0 <= i < time.len() ==> is_digit(#[trigger] time[i]) || time[i] == ':',
    ensures
        ({
            let s = date + seq![' '] + time;
            let p = first_of(trimmed(s), ' ', 'T', 0);
            &&& trimmed(s) == s
            &&& p == date.len()
            &&& s.take(p) == date
            &&& s.skip(p + 1) == time
            &&& p < s.len()
        }),
{
    let s = date + seq![' '] + time;
    assert(s[0] == date[0] && s.last() == time.last());
    assert(time.last() == time[time.len() - 1]);
    assert(!is_space(s[0]) && !is_space(s.last()));
    nothing_to_trim(s);
    assert forall|i: int| 0 <= i < date.len() implies s[i] != ' ' && s[i] != 'T' by {
        assert(s[i] == date[i]);
    }
    cut_found(s, date.len() as int, 0);
    assert(s.take(date.len() as int) =~= date);
    assert(s.skip(date.len() as int + 1) =~= time);
}

} // verus!
