//! Text as a sequence of characters: trimming, splitting, numbers, search and order.
use vstd::prelude::*;

verus! {

/// `String::push` appends one character.
pub assume_specification[ String::push ](s: &mut String, c: char)
    ensures
        final(s)@ == old(s)@.push(c),
;

/// The characters of a string, in order.
pub fn chars_of(s: &str) -> (r: Vec<char>)
    ensures
        r@ == s@,
{
    let mut out: Vec<char> = Vec::new();
    for c in it: s.chars()
        invariant
            out@ == it.seq().take(it.index() as int),
            it.seq() == s@,
    {
        out.push(c);
        assert(it.seq().take(it.index() as int + 1) =~= it.seq().take(it.index() as int).push(c));
    }
    assert(out@ =~= s@);
    out
}

/// The string made of the given characters.
pub fn text_of(v: &Vec<char>) -> (r: String)
    ensures
        r@ == v@,
{
    let mut out = String::new();
    for i in 0..v.len()
        invariant
            out@ == v@.take(i as int),
    {
        out.push(v[i]);
        assert(v@.take(i as int + 1) =~= v@.take(i as int).push(v@[i as int]));
    }
    assert(out@ =~= v@);
    out
}

/// The characters with Unicode property `White_Space`.
pub open spec fn is_space(c: char) -> bool {
    ||| '\u{0009}' <= c <= '\u{000D}'
    ||| c == '\u{0020}'
    ||| c == '\u{0085}'
    ||| c == '\u{00A0}'
    ||| c == '\u{1680}'
    ||| '\u{2000}' <= c <= '\u{200A}'
    ||| c == '\u{2028}'
    ||| c == '\u{2029}'
    ||| c == '\u{202F}'
    ||| c == '\u{205F}'
    ||| c == '\u{3000}'
}

/// Tells whether a character is white space.
pub fn space(c: char) -> (r: bool)
    ensures
        r == is_space(c),
{
    ('\u{0009}' <= c && c <= '\u{000D}') || c == '\u{0020}' || c == '\u{0085}' || c == '\u{00A0}'
        || c == '\u{1680}' || ('\u{2000}' <= c && c <= '\u{200A}') || c == '\u{2028}' || c
        == '\u{2029}' || c == '\u{202F}' || c == '\u{205F}' || c == '\u{3000}'
}

/// `s` without its leading white space.
pub open spec fn trimmed_front(s: Seq<char>) -> Seq<char>
    decreases s.len(),
{
    if s.len() > 0 && is_space(s[0]) {
        trimmed_front(s.skip(1))
    } else {
        s
    }
}

/// `s` without its trailing white space.
pub open spec fn trimmed_back(s: Seq<char>) -> Seq<char>
    decreases s.len(),
{
    if s.len() > 0 && is_space(s.last()) {
        trimmed_back(s.drop_last())
    } else {
        s
    }
}

/// `s` without leading and trailing white space.
pub open spec fn trimmed(s: Seq<char>) -> Seq<char> {
    trimmed_back(trimmed_front(s))
}

/// Removes white space at both ends.
pub fn trim(v: &Vec<char>) -> (r: Vec<char>)
    ensures
        r@ == trimmed(v@),
{
    let n: usize = v.len();
    let mut lo: usize = 0;
    assert(v@.skip(0) =~= v@);
    while lo < n && space(v[lo])
        invariant
            lo <= n == v.len(),
            trimmed_front(v@) == trimmed_front(v@.skip(lo as int)),
        decreases n - lo,
    {
        assert(v@.skip(lo as int).skip(1) =~= v@.skip(lo as int + 1));
        lo += 1;
    }
    let mut hi: usize = n;
    assert(v@.subrange(lo as int, n as int) =~= v@.skip(lo as int));
    while hi > lo && space(v[hi - 1])
        invariant
            lo <= hi <= n == v.len(),
            trimmed(v@) == trimmed_back(v@.subrange(lo as int, hi as int)),
        decreases hi,
    {
        assert(v@.subrange(lo as int, hi as int).drop_last() =~= v@.subrange(
            lo as int,
            hi as int - 1,
        ));
        hi -= 1;
    }
    copy_range(v, lo, hi)
}

/// Copies the characters from `lo` up to, not including, `hi`.
pub fn copy_range(v: &Vec<char>, lo: usize, hi: usize) -> (r: Vec<char>)
    requires
        lo <= hi <= v.len(),
    ensures
        r@ == v@.subrange(lo as int, hi as int),
{
    let mut out: Vec<char> = Vec::new();
    let mut i: usize = lo;
    while i < hi
        invariant
            lo <= i <= hi <= v.len(),
            out@ == v@.subrange(lo as int, i as int),
        decreases hi - i,
    {
        out.push(v[i]);
        assert(v@.subrange(lo as int, i as int + 1) =~= v@.subrange(lo as int, i as int).push(
            v@[i as int],
        ));
        i += 1;
    }
    out
}

/// The least position from `from` on that holds `a` or `b`; the length of `s` if there is none.
pub open spec fn first_of(s: Seq<char>, a: char, b: char, from: int) -> int
    decreases s.len() - from,
{
    if from >= s.len() {
        s.len() as int
    } else if s[from] == a || s[from] == b {
        from
    } else {
        first_of(s, a, b, from + 1)
    }
}

/// Finds the least position from `from` on that holds `a` or `b`.
pub fn find_first(v: &Vec<char>, a: char, b: char, from: usize) -> (r: usize)
    requires
        from <= v.len(),
    ensures
        r == first_of(v@, a, b, from as int),
        from <= r <= v.len(),
{
    let mut i: usize = from;
    while i < v.len()
        invariant
            from <= i <= v.len(),
            first_of(v@, a, b, from as int) == first_of(v@, a, b, i as int),
        decreases v.len() - i,
    {
        if v[i] == a || v[i] == b {
            return i;
        }
        i += 1;
    }
    i
}

/// The last position of `c` among the first `end` characters; -1 if there is none.
pub open spec fn last_of(s: Seq<char>, c: char, end: int) -> int
    decreases end,
{
    if end <= 0 {
        -1
    } else if s[end - 1] == c {
        end - 1
    } else {
        last_of(s, c, end - 1)
    }
}

/// Finds the last position of `c`.
pub fn find_last(v: &Vec<char>, c: char) -> (r: Option<usize>)
    ensures
        match r {
            Some(i) => i < v.len() && i == last_of(v@, c, v.len() as int),
            None => last_of(v@, c, v.len() as int) == -1,
        },
{
    let mut end: usize = v.len();
    while end > 0
        invariant
            end <= v.len(),
            last_of(v@, c, v.len() as int) == last_of(v@, c, end as int),
        decreases end,
    {
        if v[end - 1] == c {
            return Some(end - 1);
        }
        end -= 1;
    }
    None
}

/// The piece number `k` (from 0) of `s`, cut at every `a` and every `b`.
pub open spec fn piece_of(s: Seq<char>, a: char, b: char, k: nat) -> Option<Seq<char>>
    decreases k,
{
    let p = first_of(s, a, b, 0);
    if k == 0 {
        Some(s.take(p))
    } else if p < s.len() {
        piece_of(s.skip(p + 1), a, b, (k - 1) as nat)
    } else {
        None
    }
}

/// Returns the piece number `k` (from 0) of the text, cut at every `a` and every `b`.
pub fn piece(v: &Vec<char>, a: char, b: char, k: usize) -> (r: Option<Vec<char>>)
    ensures
        r is Some == piece_of(v@, a, b, k as nat) is Some,
        r is Some ==> r->0@ == piece_of(v@, a, b, k as nat)->0,
    decreases k,
{
    proof {
        first_of_range(v@, a, b, 0);
    }
    let p: usize = find_first(v, a, b, 0);
    if k == 0 {
        let head = copy_range(v, 0, p);
        assert(head@ =~= v@.take(p as int));
        Some(head)
    } else if p < v.len() {
        let rest = copy_range(v, p + 1, v.len());
        assert(rest@ =~= v@.skip(p as int + 1));
        piece(&rest, a, b, k - 1)
    } else {
        None
    }
}

/// `first_of` gives a position at or after the start, at most the length, and none before it holds
/// one of the characters.
pub proof fn first_of_range(s: Seq<char>, a: char, b: char, from: int)
    requires
        0 <= from <= s.len(),
    ensures
        from <= first_of(s, a, b, from) <= s.len(),
        first_of(s, a, b, from) < s.len() ==> s[first_of(s, a, b, from)] == a || s[first_of(
            s,
            a,
            b,
            from,
        )] == b,
        forall|k: int| from <= k < first_of(s, a, b, from) ==> #[trigger] s[k] != a && s[k] != b,
    decreases s.len() - from,
{
    if from < s.len() && s[from] != a && s[from] != b {
        first_of_range(s, a, b, from + 1);
    }
}

/// Tells whether `c` is one of the ten ASCII digits.
pub open spec fn is_digit(c: char) -> bool {
    '0' <= c <= '9'
}

/// The number that the decimal digits of `s` write.
pub open spec fn digits_value(s: Seq<char>) -> int
    decreases s.len(),
{
    if s.len() == 0 {
        0
    } else {
        digits_value(s.drop_last()) * 10 + (s.last() as int - '0' as int)
    }
}

/// Every character of `s` is a digit, and there is at least one.
pub open spec fn all_digits(s: Seq<char>) -> bool {
    s.len() > 0 && forall|i: int| 0 <= i < s.len() ==> is_digit(#[trigger] s[i])
}

/// The integer that `s` writes: an optional sign, then digits, within 64 signed bits.
pub open spec fn integer_of(s: Seq<char>) -> Option<int> {
    let signed = s.len() > 0 && (s[0] == '+' || s[0] == '-');
    let digits = if signed { s.skip(1) } else { s };
    let value = if s.len() > 0 && s[0] == '-' { -digits_value(digits) } else { digits_value(digits) };
    if all_digits(digits) && i64::MIN <= value <= i64::MAX {
        Some(value)
    } else {
        None
    }
}

/// More digits never make the number smaller.
proof fn digits_value_grows(s: Seq<char>, k: int)
    requires
        0 <= k <= s.len(),
        forall|i: int| 0 <= i < s.len() ==> is_digit(#[trigger] s[i]),
    ensures
        0 <= digits_value(s.take(k)) <= digits_value(s),
    decreases s.len(),
{
    if k == s.len() {
        assert(s.take(k) =~= s);
        if s.len() > 0 {
            digits_value_grows(s.drop_last(), s.len() - 1);
        }
    } else {
        digits_value_grows(s.drop_last(), k);
        assert(s.drop_last().take(k) =~= s.take(k));
    }
}

/// Reads an integer: an optional sign, then digits, within 64 signed bits.
pub fn parse_integer(v: &Vec<char>) -> (r: Option<i64>)
    ensures
        r is Some == integer_of(v@) is Some,
        r is Some ==> r->0 == integer_of(v@)->0,
{
    let n: usize = v.len();
    if n == 0 {
        return None;
    }
    let negative = v[0] == '-';
    let start: usize = if negative || v[0] == '+' { 1 } else { 0 };
    let ghost digits = if start == 1 { v@.skip(1) } else { v@ };
    if start == n {
        return None;
    }
    let mut value: i128 = 0;
    let mut i: usize = start;
    assert(digits.take(0) =~= Seq::<char>::empty());
    while i < n
        invariant
            start <= i <= n == v.len(),
            start <= 1,
            digits == if start == 1 { v@.skip(1) } else { v@ },
            digits.len() == n - start,
            start == 1 <==> (v@[0] == '+' || v@[0] == '-'),
            negative == (v@[0] == '-'),
            0 <= value <= 0x8000_0000_0000_0000,
            value == digits_value(digits.take(i - start)),
            forall|j: int| 0 <= j < i - start ==> is_digit(#[trigger] digits[j]),
        decreases n - i,
    {
        let c = v[i];
        assert(digits[i - start] == c);
        if c < '0' || c > '9' {
            assert(!is_digit(digits[i - start]));
            return None;
        }
        value = value * 10 + (c as u32 - '0' as u32) as i128;
        assert(digits.take(i - start + 1).drop_last() =~= digits.take(i - start));
        i += 1;
        if value > 0x8000_0000_0000_0000 {
            proof {
                if all_digits(digits) {
                    digits_value_grows(digits, i - start);
                }
            }
            return None;
        }
    }
    assert(digits.take(n - start) =~= digits);
    if negative {
        Some((-value) as i64)
    } else if value <= 0x7fff_ffff_ffff_ffff {
        Some(value as i64)
    } else {
        None
    }
}

/// The number that `s` writes: an optional plus sign, then digits, within 64 bits.
pub open spec fn natural_of(s: Seq<char>) -> Option<nat> {
    let digits = if s.len() > 0 && s[0] == '+' { s.skip(1) } else { s };
    if all_digits(digits) && digits_value(digits) <= u64::MAX {
        Some(digits_value(digits) as nat)
    } else {
        None
    }
}

/// Reads a number: an optional plus sign, then digits, within 64 bits.
pub fn parse_natural(v: &Vec<char>) -> (r: Option<u64>)
    ensures
        r is Some == natural_of(v@) is Some,
        r is Some ==> r->0 == natural_of(v@)->0,
{
    let n: usize = v.len();
    if n == 0 {
        return None;
    }
    let start: usize = if v[0] == '+' { 1 } else { 0 };
    let ghost digits = if start == 1 { v@.skip(1) } else { v@ };
    if start == n {
        return None;
    }
    let mut value: u128 = 0;
    let mut i: usize = start;
    assert(digits.take(0) =~= Seq::<char>::empty());
    while i < n
        invariant
            start <= i <= n == v.len(),
            start <= 1,
            digits == if start == 1 { v@.skip(1) } else { v@ },
            digits.len() == n - start,
            start == 1 <==> v@[0] == '+',
            value <= u64::MAX,
            value == digits_value(digits.take(i - start)),
            forall|j: int| 0 <= j < i - start ==> is_digit(#[trigger] digits[j]),
        decreases n - i,
    {
        let c = v[i];
        assert(digits[i - start] == c);
        if c < '0' || c > '9' {
            assert(!is_digit(digits[i - start]));
            return None;
        }
        value = value * 10 + (c as u32 - '0' as u32) as u128;
        assert(digits.take(i - start + 1).drop_last() =~= digits.take(i - start));
        i += 1;
        if value > u64::MAX as u128 {
            proof {
                if all_digits(digits) {
                    digits_value_grows(digits, i - start);
                }
            }
            return None;
        }
    }
    assert(digits.take(n - start) =~= digits);
    Some(value as u64)
}

/// The character of a digit below ten.
pub open spec fn digit_char(d: int) -> char {
    (48 + d) as char
}

/// `n` in decimal, without leading zeros.
pub open spec fn decimal(n: nat) -> Seq<char>
    decreases n,
{
    if n < 10 {
        seq![digit_char(n as int)]
    } else {
        decimal(n / 10).push(digit_char((n % 10) as int))
    }
}

/// A number in decimal is made of digits, and they write the number.
pub proof fn decimal_reads_back(n: nat)
    ensures
        all_digits(decimal(n)),
        digits_value(decimal(n)) == n,
    decreases n,
{
    reveal_with_fuel(digits_value, 2);
    if n < 10 {
        assert(decimal(n).drop_last() =~= Seq::<char>::empty());
        assert(is_digit(digit_char(n as int)));
    } else {
        decimal_reads_back(n / 10);
        let s = decimal(n);
        assert(s.drop_last() =~= decimal(n / 10));
        assert forall|i: int| 0 <= i < s.len() implies is_digit(#[trigger] s[i]) by {
            if i < s.len() - 1 {
                assert(is_digit(decimal(n / 10)[i]));
            }
        }
    }
}

/// Appends `n` in decimal.
pub fn push_decimal(s: &mut String, n: u64)
    ensures
        final(s)@ == old(s)@ + decimal(n as nat),
    decreases n,
{
    if n >= 10 {
        push_decimal(s, n / 10);
    }
    let c = (48 + (n % 10) as u8) as char;
    s.push(c);
    proof {
        assert(c == digit_char((n % 10) as int));
        assert(s@ =~= old(s)@ + decimal(n as nat));
    }
}

/// `n` in decimal, as a string.
pub fn decimal_text(n: u64) -> (r: String)
    ensures
        r@ == decimal(n as nat),
{
    let mut s = String::new();
    push_decimal(&mut s, n);
    assert(s@ =~= decimal(n as nat));
    s
}

/// The lower-case form of an ASCII capital; any other character itself.
pub open spec fn lower(c: char) -> char {
    if 'A' <= c <= 'Z' {
        (c as u8 + 32) as char
    } else {
        c
    }
}

/// `s` with its ASCII capitals in lower case.
pub open spec fn lowered(s: Seq<char>) -> Seq<char> {
    s.map_values(|c: char| lower(c))
}

/// Returns the text with its ASCII capitals in lower case.
pub fn lowercase(v: &Vec<char>) -> (r: String)
    ensures
        r@ == lowered(v@),
{
    let mut out = String::new();
    for i in 0..v.len()
        invariant
            out@ == lowered(v@.take(i as int)),
    {
        let c = v[i];
        let l = if 'A' <= c && c <= 'Z' { ((c as u8) + 32) as char } else { c };
        out.push(l);
        assert(lowered(v@.take(i as int + 1)) =~= lowered(v@.take(i as int)).push(lower(c)));
    }
    assert(v@.take(v.len() as int) =~= v@);
    out
}

/// `pat` stands in `s` at position `i`.
pub open spec fn stands_at(s: Seq<char>, pat: Seq<char>, i: int) -> bool {
    0 <= i && i + pat.len() <= s.len() && s.subrange(i, i + pat.len()) == pat
}

/// Tells whether `pat` stands in `v` at position `i`.
fn matches_at(v: &Vec<char>, pat: &Vec<char>, i: usize) -> (r: bool)
    requires
        i + pat.len() <= v.len(),
    ensures
        r == stands_at(v@, pat@, i as int),
{
    let mut k: usize = 0;
    while k < pat.len()
        invariant
            k <= pat.len(),
            i + pat.len() <= v.len(),
            forall|j: int| 0 <= j < k ==> v@[i + j] == pat@[j],
        decreases pat.len() - k,
    {
        if v[i + k] != pat[k] {
            assert(v@.subrange(i as int, i + pat.len())[k as int] != pat@[k as int]);
            return false;
        }
        k += 1;
    }
    assert(v@.subrange(i as int, i + pat.len()) =~= pat@);
    true
}

/// Tells whether two texts are the same.
pub fn same_text(a: &str, b: &str) -> (r: bool)
    ensures
        r == (a@ == b@),
{
    let v = chars_of(a);
    let w = chars_of(b);
    if v.len() != w.len() {
        return false;
    }
    assert(v@.subrange(0, w@.len() as int) =~= v@);
    matches_at(&v, &w, 0)
}

/// `a` comes before `b` in the order of their characters, the shorter first where one is a
/// prefix of the other.
pub open spec fn text_before(a: Seq<char>, b: Seq<char>) -> bool
    decreases a.len(),
{
    if b.len() == 0 {
        false
    } else if a.len() == 0 {
        true
    } else if a[0] != b[0] {
        a[0] < b[0]
    } else {
        text_before(a.skip(1), b.skip(1))
    }
}

/// Tells whether `a` comes before `b`.
pub fn before(a: &Vec<char>, b: &Vec<char>) -> (r: bool)
    ensures
        r == text_before(a@, b@),
{
    let mut i: usize = 0;
    assert(a@.skip(0) =~= a@);
    assert(b@.skip(0) =~= b@);
    loop
        invariant
            i <= a.len(),
            i <= b.len(),
            text_before(a@, b@) == text_before(a@.skip(i as int), b@.skip(i as int)),
        decreases a.len() - i,
    {
        if i == b.len() {
            return false;
        }
        if i == a.len() {
            return true;
        }
        if a[i] != b[i] {
            return a[i] < b[i];
        }
        assert(a@.skip(i as int).skip(1) =~= a@.skip(i as int + 1));
        assert(b@.skip(i as int).skip(1) =~= b@.skip(i as int + 1));
        i += 1;
    }
}

/// Texts are ordered by the first character in which they differ, and a text comes before every longer
/// one that starts with it.
pub proof fn texts_are_ordered_by_their_first_difference(
    p: Seq<char>,
    c: char,
    d: char,
    x: Seq<char>,
    y: Seq<char>,
)
    ensures
        c != d ==> (text_before(p + seq![c] + x, p + seq![d] + y) <==> c < d),
        text_before(p, p + seq![c] + x),
        !text_before(p + seq![c] + x, p),
    decreases p.len(),
{
    let (a, b) = (p + seq![c] + x, p + seq![d] + y);
    if p.len() == 0 {
        assert(a[0] == c && b[0] == d);
    } else {
        let q = p.skip(1);
        assert(a[0] == p[0] && b[0] == p[0]);
        assert(a.skip(1) =~= q + seq![c] + x);
        assert(b.skip(1) =~= q + seq![d] + y);
        texts_are_ordered_by_their_first_difference(q, c, d, x, y);
    }
}

/// The first piece of a text ends at its first cut, and the other pieces are those of what stands
/// behind the cut; a text without a cut is one piece.
pub proof fn pieces_end_at_the_cuts(head: Seq<char>, cut: char, rest: Seq<char>, a: char, b: char, k: nat)
    requires
        forall|i: int| 0 <= i < head.len() ==> #[trigger] head[i] != a && head[i] != b,
        cut == a || cut == b,
    ensures
        piece_of(head + seq![cut] + rest, a, b, 0) == Some(head),
        piece_of(head + seq![cut] + rest, a, b, k + 1) == piece_of(rest, a, b, k),
        piece_of(head, a, b, 0) == Some(head),
        piece_of(head, a, b, k + 1) is None,
{
    let s = head + seq![cut] + rest;
    let n = head.len() as int;
    first_of_range(s, a, b, 0);
    first_of_range(head, a, b, 0);
    let p = first_of(s, a, b, 0);
    assert(s[n] == cut);
    if p < n {
        assert(s[p] == head[p]);
    }
    assert(p == n);
    assert(s.take(n) =~= head);
    assert(s.skip(n + 1) =~= rest);
    let q = first_of(head, a, b, 0);
    assert(q == n);
    assert(head.take(n) =~= head);
}

/// White space at the ends is taken off, and nothing else: a text that starts and ends with another
/// character is what is left, whatever white space stands around it.
pub proof fn white_space_at_the_ends_is_taken_off(a: Seq<char>, s: Seq<char>, b: Seq<char>)
    requires
        forall|i: int| 0 <= i < a.len() ==> is_space(#[trigger] a[i]),
        forall|i: int| 0 <= i < b.len() ==> is_space(#[trigger] b[i]),
        s.len() > 0,
        !is_space(s[0]),
        !is_space(s.last()),
    ensures
        trimmed(a + s + b) == s,
    decreases a.len() + b.len(),
{
    let t = a + s + b;
    if a.len() > 0 {
        assert(t[0] == a[0]);
        assert(t.skip(1) =~= a.skip(1) + s + b);
        white_space_at_the_ends_is_taken_off(a.skip(1), s, b);
    } else {
        assert(t =~= s + b);
        assert(t[0] == s[0]);
        back_is_taken_off(s, b);
    }
}

/// White space at the end is taken off.
proof fn back_is_taken_off(s: Seq<char>, b: Seq<char>)
    requires
        forall|i: int| 0 <= i < b.len() ==> is_space(#[trigger] b[i]),
        s.len() > 0,
        !is_space(s.last()),
    ensures
        trimmed_back(s + b) == s,
    decreases b.len(),
{
    if b.len() > 0 {
        assert((s + b).last() == b.last());
        assert((s + b).drop_last() =~= s + b.drop_last());
        back_is_taken_off(s, b.drop_last());
    } else {
        assert(s + b =~= s);
    }
}

/// A sign in front of digits is read: minus makes the number negative, plus changes nothing.
pub proof fn signs_are_read(n: nat)
    requires
        n <= i64::MAX,
    ensures
        integer_of(decimal(n)) == Some(n as int),
        integer_of(seq!['+'] + decimal(n)) == Some(n as int),
        integer_of(seq!['-'] + decimal(n)) == Some(-(n as int)),
        natural_of(decimal(n)) == Some(n),
        natural_of(seq!['+'] + decimal(n)) == Some(n),
        natural_of(seq!['-'] + decimal(n)) is None,
{
    decimal_reads_back(n);
    let s = decimal(n);
    assert(is_digit(s[0]));
    assert((seq!['+'] + s).skip(1) =~= s);
    assert((seq!['-'] + s).skip(1) =~= s);
    assert((seq!['-'] + s)[0] == '-');
    assert(!is_digit('-'));
}

} // verus!
