//! Fixed-point numbers with six decimal places, held in integers.
//!
//! A score, a weight, a ratio or a coordinate `x` is held as the integer nearest to
//! `x * 1_000_000`.
use crate::text::{decimal, decimal_reads_back, digit_char, digits_value, first_of, first_of_range, is_digit, push_decimal};
use vstd::prelude::*;

verus! {

/// One, in fixed point.
pub const MICRO: i64 = 1_000_000;

/// The quotient of `n` by a positive `d`, to the nearest integer, halves away from zero.
pub open spec fn rounded(n: int, d: int) -> int {
    if n >= 0 {
        (2 * n + d) / (2 * d)
    } else {
        -((2 * -n + d) / (2 * d))
    }
}

/// Divides and rounds to the nearest integer, halves away from zero.
pub fn round_div(n: i128, d: i128) -> (r: i128)
    requires
        0 < d < 0x1000_0000_0000_0000_0000_0000_0000_0000,
        -0x1000_0000_0000_0000_0000_0000_0000_0000 < n
            < 0x1000_0000_0000_0000_0000_0000_0000_0000,
    ensures
        r == rounded(n as int, d as int),
        n >= 0 ==> 0 <= r <= n,
        n <= 0 ==> n <= r <= 0,
{
    let m: u128 = if n >= 0 { n as u128 } else { (-n) as u128 };
    let q: u128 = (2 * m + d as u128) / (2 * (d as u128));
    proof {
        quotient_bound(m as int, d as int);
    }
    if n >= 0 {
        q as i128
    } else {
        -(q as i128)
    }
}

/// A rounded quotient is no larger than what was divided.
proof fn quotient_bound(m: int, d: int)
    requires
        m >= 0,
        d > 0,
    ensures
        0 <= (2 * m + d) / (2 * d) <= m,
{
    let q = (2 * m + d) / (2 * d);
    assert(q * (2 * d) <= 2 * m + d < (q + 1) * (2 * d)) by {
        vstd::arithmetic::div_mod::lemma_fundamental_div_mod(2 * m + d, 2 * d);
        vstd::arithmetic::div_mod::lemma_mod_bound(2 * m + d, 2 * d);
        assert((2 * d) * q == q * (2 * d)) by (nonlinear_arith);
        assert((q + 1) * (2 * d) == q * (2 * d) + 2 * d) by (nonlinear_arith);
    }
    assert(0 <= q <= m) by (nonlinear_arith)
        requires
            q * (2 * d) <= 2 * m + d < (q + 1) * (2 * d),
            m >= 0,
            d > 0,
    ;
}

/// Rounding keeps the order of numbers that are not negative.
pub proof fn rounded_keeps_order(a: int, b: int, d: int)
    requires
        0 <= a <= b,
        d > 0,
    ensures
        rounded(a, d) <= rounded(b, d),
{
    assert((2 * a + d) / (2 * d) <= (2 * b + d) / (2 * d)) by (nonlinear_arith)
        requires
            0 <= a <= b,
            d > 0,
    ;
}

/// `v` brought into the range from `lo` to `hi`.
pub open spec fn clamped(v: int, lo: int, hi: int) -> int {
    if v < lo {
        lo
    } else if v > hi {
        hi
    } else {
        v
    }
}

/// Brings `v` into the range from `lo` to `hi`.
pub fn clamp(v: i128, lo: i128, hi: i128) -> (r: i128)
    requires
        lo <= hi,
    ensures
        r == clamped(v as int, lo as int, hi as int),
        lo <= r <= hi,
{
    if v < lo {
        lo
    } else if v > hi {
        hi
    } else {
        v
    }
}

/// `r` is the integer part of the square root of `n`.
pub open spec fn is_root(n: int, r: int) -> bool {
    0 <= r && r * r <= n < (r + 1) * (r + 1)
}

/// The integer part of the square root of `n`.
pub open spec fn root_of(n: int) -> int {
    choose|r: int| is_root(n, r)
}

/// The integer part of the square root.
pub fn integer_root(n: u128) -> (r: u128)
    requires
        n < 0x4000_0000_0000_0000_0000_0000_0000_0000,
    ensures
        is_root(n as int, r as int),
        r == root_of(n as int),
        r < 0x8000_0000_0000_0000,
{
    let mut lo: u128 = 0;
    let mut hi: u128 = 0x8000_0000_0000_0000;
    assert(0x8000_0000_0000_0000int * 0x8000_0000_0000_0000int
        == 0x4000_0000_0000_0000_0000_0000_0000_0000int) by (nonlinear_arith);
    while hi - lo > 1
        invariant
            0 <= lo < hi <= 0x8000_0000_0000_0000,
            lo * lo <= n < hi * hi,
        decreases hi - lo,
    {
        let mid: u128 = lo + (hi - lo) / 2;
        assert(mid * mid <= 0x4000_0000_0000_0000_0000_0000_0000_0000int) by (nonlinear_arith)
            requires
                mid <= 0x8000_0000_0000_0000,
        ;
        if mid * mid <= n {
            lo = mid;
        } else {
            hi = mid;
        }
    }
    assert(hi == lo + 1);
    proof {
        root_unique(n as int, lo as int, lo as int);
    }
    lo
}

/// Only one integer is the integer part of a square root.
pub proof fn root_unique(n: int, a: int, b: int)
    requires
        is_root(n, a),
        is_root(n, b),
    ensures
        a == b,
        a == root_of(n),
{
    let c = root_of(n);
    assert(is_root(n, c));
    assert(a == c) by (nonlinear_arith)
        requires
            0 <= a,
            0 <= c,
            a * a <= n < (a + 1) * (a + 1),
            c * c <= n < (c + 1) * (c + 1),
    ;
    assert(a == b) by (nonlinear_arith)
        requires
            0 <= a,
            0 <= b,
            a * a <= n < (a + 1) * (a + 1),
            b * b <= n < (b + 1) * (b + 1),
    ;
}

/// The quotient of `n` by a positive `d`, to the nearest integer, halves to the even one.
pub open spec fn rounded_even(n: nat, d: nat) -> nat {
    let q = n / d;
    let r = n % d;
    if 2 * r < d || (2 * r == d && q % 2 == 0) {
        q
    } else {
        q + 1
    }
}

/// The size of an integer without its sign.
pub open spec fn magnitude(v: int) -> nat {
    if v < 0 {
        (-v) as nat
    } else {
        v as nat
    }
}

/// The sign of `v` in front of its digits; a plus sign only where `plus` asks for it.
pub open spec fn sign_text(v: int, plus: bool) -> Seq<char> {
    if v < 0 {
        seq!['-']
    } else if plus {
        seq!['+']
    } else {
        Seq::empty()
    }
}

/// Ten to the power `k`.
pub open spec fn power10(k: nat) -> nat
    decreases k,
{
    if k == 0 {
        1
    } else {
        10 * power10((k - 1) as nat)
    }
}

/// The last `k` decimal digits of `n`, with leading zeros.
pub open spec fn padded(n: nat, k: nat) -> Seq<char>
    decreases k,
{
    if k == 0 {
        Seq::empty()
    } else {
        padded(n / 10, (k - 1) as nat).push(digit_char((n % 10) as int))
    }
}

/// `v` with `k` decimal places, from 1 to 6, rounded to the nearest, halves to the even digit; a
/// plus sign in front of what is not negative where `plus` asks for it.
pub open spec fn places(v: int, k: nat, plus: bool) -> Seq<char> {
    let t = rounded_even(magnitude(v), power10((6 - k) as nat));
    sign_text(v, plus) + decimal(t / power10(k)) + seq!['.'] + padded(t % power10(k), k)
}

/// A fraction of `k` digits without its trailing zeros.
pub open spec fn fraction(n: nat, k: nat) -> Seq<char>
    decreases k,
{
    if k > 0 && n % 10 == 0 {
        fraction(n / 10, (k - 1) as nat)
    } else {
        padded(n, k)
    }
}

/// `v` with as many decimal places as it needs; none, and no point, where it is whole.
pub open spec fn shortest(v: int) -> Seq<char> {
    let m = magnitude(v);
    let whole = sign_text(v, false) + decimal(m / 1_000_000);
    if m % 1_000_000 == 0 {
        whole
    } else {
        whole + seq!['.'] + fraction(m % 1_000_000, 6)
    }
}

/// `v` with as many decimal places as it needs, but at least one.
pub open spec fn shortest_decimal(v: int) -> Seq<char> {
    if magnitude(v) % 1_000_000 == 0 {
        shortest(v) + seq!['.'] + seq!['0']
    } else {
        shortest(v)
    }
}

/// Divides and rounds to the nearest integer, halves to the even one.
fn round_even(n: u64, d: u64) -> (r: u64)
    requires
        1 <= d < 0x1000_0000,
        n <= 0x8000_0000_0000_0000,
    ensures
        r == rounded_even(n as nat, d as nat),
{
    let q: u64 = n / d;
    let r: u64 = n % d;
    assert(q <= n) by (nonlinear_arith)
        requires
            q == n / d,
            d >= 1,
    ;
    if 2 * r < d || (2 * r == d && q % 2 == 0) {
        q
    } else {
        q + 1
    }
}

/// The size of an integer without its sign.
fn size_of(v: i64) -> (r: u64)
    ensures
        r == magnitude(v as int),
        r <= 0x8000_0000_0000_0000,
{
    if v >= 0 {
        v as u64
    } else {
        (-(v as i128)) as u64
    }
}

/// Appends the sign of `v`.
fn push_sign(s: &mut String, v: i64, plus: bool)
    ensures
        final(s)@ == old(s)@ + sign_text(v as int, plus),
{
    if v < 0 {
        s.push('-');
        assert(s@ =~= old(s)@ + sign_text(v as int, plus));
    } else if plus {
        s.push('+');
        assert(s@ =~= old(s)@ + sign_text(v as int, plus));
    }
    assert(s@ =~= old(s)@ + sign_text(v as int, plus));
}

/// Appends the digit `d`.
fn push_digit(s: &mut String, d: u64)
    requires
        d < 10,
    ensures
        final(s)@ == old(s)@ + seq![digit_char(d as int)],
{
    let c = (48 + d as u8) as char;
    s.push(c);
    assert(s@ =~= old(s)@ + seq![digit_char(d as int)]);
}

/// Appends one character.
fn push_char(s: &mut String, c: char)
    ensures
        final(s)@ == old(s)@ + seq![c],
{
    s.push(c);
    assert(s@ =~= old(s)@ + seq![c]);
}

/// Ten to the power `k`.
fn pow10(k: u64) -> (r: u64)
    requires
        k <= 6,
    ensures
        r == power10(k as nat),
        1 <= r <= 1_000_000,
{
    proof {
        reveal_with_fuel(power10, 7);
    }
    if k == 0 {
        1
    } else if k == 1 {
        10
    } else if k == 2 {
        100
    } else if k == 3 {
        1_000
    } else if k == 4 {
        10_000
    } else if k == 5 {
        100_000
    } else {
        1_000_000
    }
}

/// Appends the last `k` digits of `n`, with leading zeros.
fn push_padded(s: &mut String, n: u64, k: u64)
    ensures
        final(s)@ == old(s)@ + padded(n as nat, k as nat),
    decreases k,
{
    if k == 0 {
        assert(s@ =~= old(s)@ + padded(n as nat, 0));
    } else {
        push_padded(s, n / 10, k - 1);
        push_digit(s, n % 10);
        assert(s@ =~= old(s)@ + padded(n as nat, k as nat));
    }
}

/// Appends a fraction of `k` digits without its trailing zeros.
fn push_fraction(s: &mut String, n: u64, k: u64)
    ensures
        final(s)@ == old(s)@ + fraction(n as nat, k as nat),
    decreases k,
{
    if k > 0 && n % 10 == 0 {
        push_fraction(s, n / 10, k - 1);
    } else {
        push_padded(s, n, k);
    }
}

/// Appends `v` with `k` decimal places.
pub fn push_places(s: &mut String, v: i64, k: u64, plus: bool)
    requires
        1 <= k <= 6,
    ensures
        final(s)@ == old(s)@ + places(v as int, k as nat, plus),
{
    let unit: u64 = pow10(6 - k);
    let scale: u64 = pow10(k);
    let t: u64 = round_even(size_of(v), unit);
    push_sign(s, v, plus);
    push_decimal(s, t / scale);
    push_char(s, '.');
    push_padded(s, t % scale, k);
    assert(s@ =~= old(s)@ + places(v as int, k as nat, plus));
}

/// `v` with `k` decimal places, as a string.
pub fn places_text(v: i64, k: u64, plus: bool) -> (r: String)
    requires
        1 <= k <= 6,
    ensures
        r@ == places(v as int, k as nat, plus),
{
    let mut s = String::new();
    push_places(&mut s, v, k, plus);
    assert(s@ =~= places(v as int, k as nat, plus));
    s
}

/// Appends `v` with as many decimal places as it needs.
pub fn push_shortest(s: &mut String, v: i64)
    ensures
        final(s)@ == old(s)@ + shortest(v as int),
{
    let m: u64 = size_of(v);
    push_sign(s, v, false);
    push_decimal(s, m / 1_000_000);
    if m % 1_000_000 != 0 {
        push_char(s, '.');
        push_fraction(s, m % 1_000_000, 6);
    }
    assert(s@ =~= old(s)@ + shortest(v as int));
}

/// `v` with as many decimal places as it needs, but at least one, as a string.
pub fn decimal_literal(v: i64) -> (r: String)
    ensures
        r@ == shortest_decimal(v as int),
{
    let mut s = String::new();
    push_shortest(&mut s, v);
    if size_of(v) % 1_000_000 == 0 {
        push_char(&mut s, '.');
        push_char(&mut s, '0');
    }
    assert(s@ =~= shortest_decimal(v as int));
    s
}

/// The number, in millionths, that a text writes: an optional sign, digits, and behind a point up to
/// six more digits.
pub open spec fn written(s: Seq<char>) -> int {
    let negative = s.len() > 0 && s[0] == '-';
    let b = if negative || (s.len() > 0 && s[0] == '+') { s.skip(1) } else { s };
    let p = first_of(b, '.', '.', 0);
    let behind = if p < b.len() { b.skip(p + 1) } else { Seq::empty() };
    let v = digits_value(b.take(p)) * 1_000_000 + digits_value(behind) * power10(
        (6 - behind.len()) as nat,
    );
    if negative {
        -v
    } else {
        v
    }
}

/// Padded digits are digits, as many as asked for, and write the number where it has no more.
proof fn padded_reads_back(n: nat, k: nat)
    ensures
        padded(n, k).len() == k,
        forall|i: int| 0 <= i < k ==> is_digit(#[trigger] padded(n, k)[i]),
        n < power10(k) ==> digits_value(padded(n, k)) == n,
    decreases k,
{
    if k > 0 {
        padded_reads_back(n / 10, (k - 1) as nat);
        let s = padded(n, k);
        assert(s.drop_last() =~= padded(n / 10, (k - 1) as nat));
        assert(is_digit(digit_char((n % 10) as int)));
        assert forall|i: int| 0 <= i < k implies is_digit(#[trigger] s[i]) by {
            if i < k - 1 {
                assert(s[i] == padded(n / 10, (k - 1) as nat)[i]);
            }
        }
    }
}

/// A fraction without its trailing zeros is the same fraction.
proof fn fraction_reads_back(n: nat, k: nat)
    requires
        k <= 6,
        n < power10(k),
    ensures
        fraction(n, k).len() <= k,
        forall|i: int| 0 <= i < fraction(n, k).len() ==> is_digit(#[trigger] fraction(n, k)[i]),
        digits_value(fraction(n, k)) * power10((6 - fraction(n, k).len()) as nat) == n * power10(
            (6 - k) as nat,
        ),
    decreases k,
{
    reveal_with_fuel(power10, 8);
    if k > 0 && n % 10 == 0 {
        fraction_reads_back(n / 10, (k - 1) as nat);
        let p = power10((6 - k) as nat);
        assert(power10((7 - k) as nat) == 10 * p);
        assert((n / 10) * (10 * p) == n * p) by (nonlinear_arith)
            requires
                n % 10 == 0,
        ;
    } else {
        padded_reads_back(n, k);
    }
}

/// What a sign, a whole part and a fraction write.
proof fn parts_read_back(v: int, plus: bool, whole: nat, behind: Seq<char>)
    requires
        behind.len() <= 6,
        forall|i: int| 0 <= i < behind.len() ==> is_digit(#[trigger] behind[i]),
    ensures
        ({
            let n = whole * 1_000_000 + digits_value(behind) * power10((6 - behind.len()) as nat);
            let head = sign_text(v, plus) + decimal(whole);
            &&& written(head + seq!['.'] + behind) == if v < 0 { -n } else { n }
            &&& written(head) == if v < 0 { -(whole * 1_000_000) } else { whole * 1_000_000int }
        }),
{
    let sign = sign_text(v, plus);
    let d = decimal(whole);
    decimal_reads_back(whole);
    assert(is_digit(d[0]));
    let s = sign + d + seq!['.'] + behind;
    let b = d + seq!['.'] + behind;
    assert(v < 0 || plus ==> s.skip(1) =~= b);
    assert(!(v < 0 || plus) ==> s =~= b);
    assert(b[0] == d[0]);
    assert(s[0] == if v < 0 { '-' } else if plus { '+' } else { d[0] });
    first_of_range(b, '.', '.', 0);
    let p = first_of(b, '.', '.', 0);
    assert(b[d.len() as int] == '.');
    if p < d.len() {
        assert(b[p] == d[p]);
        assert(is_digit(d[p]));
    }
    assert(p == d.len());
    assert(b.take(p) =~= d);
    assert(b.skip(p + 1) =~= behind);
    let t = sign + d;
    assert(v < 0 || plus ==> t.skip(1) =~= d);
    assert(!(v < 0 || plus) ==> t =~= d);
    assert(t[0] == if v < 0 { '-' } else if plus { '+' } else { d[0] });
    first_of_range(d, '.', '.', 0);
    let q = first_of(d, '.', '.', 0);
    if q < d.len() {
        assert(is_digit(d[q]));
    }
    assert(d.take(q) =~= d);
    let none = Seq::<char>::empty();
    assert(digits_value(none) == 0);
    assert(0 * power10(6) == 0);
}

/// The powers of ten up to a million.
proof fn power_values()
    ensures
        power10(0) == 1,
        power10(1) == 10,
        power10(2) == 100,
        power10(3) == 1_000,
        power10(4) == 10_000,
        power10(5) == 100_000,
        power10(6) == 1_000_000,
{
    reveal_with_fuel(power10, 8);
}

/// A text with `k` decimal places writes the number to within half a unit of its last place.
pub proof fn places_read_back(v: int, k: nat, plus: bool)
    requires
        1 <= k <= 6,
    ensures
        ({
            let off = written(places(v, k, plus)) - v;
            -(power10((6 - k) as nat) as int) <= 2 * off <= power10((6 - k) as nat)
        }),
        places(v, k, plus).len() > k + 1,
        places(v, k, plus)[places(v, k, plus).len() - k - 1] == '.',
        plus && v >= 0 ==> places(v, k, plus)[0] == '+',
        v < 0 ==> places(v, k, plus)[0] == '-',
{
    let unit = power10((6 - k) as nat);
    let scale = power10(k);
    power_values();
    assert((unit == 100_000 && scale == 10) || (unit == 10_000 && scale == 100) || (unit == 1_000
        && scale == 1_000) || (unit == 100 && scale == 10_000) || (unit == 10 && scale == 100_000)
        || (unit == 1 && scale == 1_000_000)) by {
        assert(k == 1 || k == 2 || k == 3 || k == 4 || k == 5 || k == 6);
    }
    assert(unit * scale == 1_000_000) by (nonlinear_arith)
        requires
            (unit == 100_000 && scale == 10) || (unit == 10_000 && scale == 100) || (unit == 1_000
                && scale == 1_000) || (unit == 100 && scale == 10_000) || (unit == 10 && scale
                == 100_000) || (unit == 1 && scale == 1_000_000),
    ;
    let m = magnitude(v);
    let t = rounded_even(m, unit);
    let whole = t / scale;
    let rest = t % scale;
    padded_reads_back(rest, k);
    parts_read_back(v, plus, whole, padded(rest, k));
    decimal_reads_back(whole);
    let n = whole * 1_000_000 + rest * unit;
    assert(t == whole * scale + rest) by (nonlinear_arith)
        requires
            whole == t / scale,
            rest == t % scale,
            scale > 0,
    ;
    assert(n == t * unit) by (nonlinear_arith)
        requires
            n == whole * 1_000_000 + rest * unit,
            unit * scale == 1_000_000,
            t == whole * scale + rest,
    ;
    let q = m / unit;
    let r = m % unit;
    assert(m == q * unit + r && 0 <= r < unit) by (nonlinear_arith)
        requires
            q == m / unit,
            r == m % unit,
            unit > 0,
    ;
    assert((q + 1) * unit == q * unit + unit) by (nonlinear_arith);
    assert(-unit <= 2 * (t * unit - m) <= unit);
}

/// A text with as many places as needed writes the number itself.
pub proof fn shortest_reads_back(v: int)
    ensures
        written(shortest(v)) == v,
        written(shortest_decimal(v)) == v,
{
    power_values();
    let m = magnitude(v);
    let whole = m / 1_000_000;
    let rest = m % 1_000_000;
    let none = Seq::<char>::empty();
    if rest == 0 {
        parts_read_back(v, false, whole, none);
        parts_read_back(v, false, whole, seq!['0']);
        reveal_with_fuel(digits_value, 2);
        assert(seq!['0'].drop_last() =~= none);
        assert(digits_value(seq!['0']) == 0);
        assert(0 * power10(5) == 0);
        assert(sign_text(v, false) + decimal(whole) == shortest(v));
    } else {
        fraction_reads_back(rest, 6);
        let f = fraction(rest, 6);
        let p = power10((6 - f.len()) as nat) as int;
        assert(rest * power10((6 - 6) as nat) == rest) by (nonlinear_arith)
            requires
                power10((6 - 6) as nat) == 1,
        ;
        parts_read_back(v, false, whole, f);
        let n = whole * 1_000_000 + digits_value(f) * p;
        assert(n == m);
        assert(shortest(v) == sign_text(v, false) + decimal(whole) + seq!['.'] + f);
    }
}

/// A text writes `v`, to within half of `unit` millionths.
pub open spec fn shows(text: Seq<char>, v: int, unit: int) -> bool {
    -unit <= 2 * (written(text) - v) <= unit
}

/// A text with one or two decimal places shows its number.
pub proof fn places_show(v: int, plus: bool)
    ensures
        shows(places(v, 1, plus), v, 100_000),
        shows(places(v, 2, plus), v, 10_000),
{
    power_values();
    places_read_back(v, 1, plus);
    places_read_back(v, 2, plus);
}

/// A rounded quotient, taken times the divisor, differs by no more than half of it from what was
/// divided.
pub proof fn rounded_is_near(n: int, d: int)
    requires
        d > 0,
    ensures
        -d <= 2 * (rounded(n, d) * d - n) <= d,
{
    let m = if n >= 0 { n } else { -n };
    let q = (2 * m + d) / (2 * d);
    vstd::arithmetic::div_mod::lemma_fundamental_div_mod(2 * m + d, 2 * d);
    vstd::arithmetic::div_mod::lemma_mod_bound(2 * m + d, 2 * d);
    assert((2 * d) * q == 2 * (q * d)) by (nonlinear_arith);
    assert((-q) * d == -(q * d)) by (nonlinear_arith);
}

/// Every number that is not negative has a square root, rounded down.
pub proof fn root_is_root(n: int)
    requires
        n >= 0,
    ensures
        is_root(n, root_of(n)),
{
    let r = root_exists(n);
    assert(is_root(n, r));
}

/// A square root, rounded down.
proof fn root_exists(n: int) -> (r: int)
    requires
        n >= 0,
    ensures
        is_root(n, r),
    decreases n,
{
    if n == 0 {
        assert(0int * 0int == 0int && (0int + 1) * (0int + 1) == 1) by (nonlinear_arith);
        0
    } else {
        let r = root_exists(n - 1);
        if n < (r + 1) * (r + 1) {
            r
        } else {
            assert(n < (r + 2) * (r + 2)) by (nonlinear_arith)
                requires
                    n - 1 < (r + 1) * (r + 1),
                    r >= 0,
            ;
            r + 1
        }
    }
}

/// A half is rounded away from zero, and the sign of a number does not matter to how it is rounded.
pub proof fn halves_go_away_from_zero(n: int, d: int)
    requires
        d > 0,
        n >= 0,
    ensures
        -d < 2 * (rounded(n, d) * d - n) <= d,
        rounded(-n, d) == -rounded(n, d),
{
    let q = (2 * n + d) / (2 * d);
    vstd::arithmetic::div_mod::lemma_fundamental_div_mod(2 * n + d, 2 * d);
    vstd::arithmetic::div_mod::lemma_mod_bound(2 * n + d, 2 * d);
    assert((2 * d) * q == 2 * (q * d)) by (nonlinear_arith);
    if n == 0 {
        assert(q == 0) by (nonlinear_arith)
            requires
                d > 0,
                d == (2 * d) * q + (2 * n + d) % (2 * d),
                0 <= (2 * n + d) % (2 * d) < 2 * d,
        ;
    }
}

/// A number within the limits stays as it is; any other is moved to the nearer limit.
pub proof fn limits_move_what_lies_beyond(v: int, lo: int, hi: int)
    requires
        lo <= hi,
    ensures
        lo <= v <= hi ==> clamped(v, lo, hi) == v,
        v <= lo ==> clamped(v, lo, hi) == lo,
        v >= hi ==> clamped(v, lo, hi) == hi,
{
}

} // verus!
