//! Thumbnails on disk: where they lie and what they are called.
use crate::fixed::{magnitude, sign_text};
use crate::review::paths::{below, path_below};
use crate::text::{all_digits, decimal, decimal_reads_back, is_digit, push_decimal};
use std::collections::hash_map::DefaultHasher;
use std::hash::Hasher;
use vstd::prelude::*;
use vstd::std_specs::hash::DefaultHasherAdditionalSpecFns;
use vstd::string::StringSliceAdditionalSpecFns;

verus! {

/// The directory of the thumbnails of the photos below `root`.
pub fn thumb_dir(root: &str) -> (r: String)
    ensures
        r@ == below(root@, ".firstcut/thumbs"@),
{
    path_below(root, ".firstcut/thumbs")
}

/// The character of a hexadecimal digit.
pub open spec fn hex_char(d: int) -> char {
    if d < 10 {
        (48 + d) as char
    } else {
        (87 + d) as char
    }
}

/// The last `k` hexadecimal digits of a number, with leading zeros.
pub open spec fn hex(n: nat, k: nat) -> Seq<char>
    decreases k,
{
    if k == 0 {
        Seq::empty()
    } else {
        hex(n / 16, (k - 1) as nat).push(hex_char((n % 16) as int))
    }
}

/// Appends the last `k` hexadecimal digits of a number.
fn push_hex(s: &mut String, n: u64, k: u64)
    ensures
        final(s)@ == old(s)@ + hex(n as nat, k as nat),
    decreases k,
{
    if k == 0 {
        assert(s@ =~= old(s)@ + hex(n as nat, 0));
    } else {
        push_hex(s, n / 16, k - 1);
        let d: u64 = n % 16;
        let c = if d < 10 { (48 + d as u8) as char } else { (87 + d as u8) as char };
        s.push(c);
        assert(s@ =~= old(s)@ + hex(n as nat, k as nat));
    }
}

/// The hash of a path: of its bytes and a byte that ends them.
pub open spec fn path_hash(rel: &str) -> u64 {
    DefaultHasher::spec_finish(seq![rel.spec_bytes(), seq![0xffu8]])
}

/// The name of the thumbnail of a file: the hash of its path, its size and the time of its last
/// change, so that a changed file gets another thumbnail.
pub open spec fn thumb_name(hash: u64, size: u64, mtime: i64) -> Seq<char> {
    hex(hash as nat, 16) + seq!['-'] + decimal(size as nat) + seq!['-'] + sign_text(
        mtime as int,
        false,
    ) + decimal(magnitude(mtime as int)) + ".jpg"@
}

/// The name of the thumbnail of a file.
pub fn cache_name(rel: &str, size: u64, mtime: i64) -> (r: String)
    ensures
        r@ == thumb_name(path_hash(rel), size, mtime),
{
    let mut h = DefaultHasher::new();
    h.write(rel.as_bytes());
    let end: [u8; 1] = [0xffu8];
    h.write(end.as_slice());
    assert(end@ =~= seq![0xffu8]);
    assert(h@ =~= seq![rel.spec_bytes(), seq![0xffu8]]);
    let mut s = String::new();
    push_hex(&mut s, h.finish(), 16);
    s.push('-');
    push_decimal(&mut s, size);
    s.push('-');
    if mtime < 0 {
        s.push('-');
        push_decimal(&mut s, (-(mtime as i128)) as u64);
    } else {
        push_decimal(&mut s, mtime as u64);
    }
    s.append(".jpg");
    assert(s@ =~= thumb_name(path_hash(rel), size, mtime));
    s
}

/// Hexadecimal digits tell numbers of 64 bits apart.
proof fn hex_differs(a: nat, b: nat, k: nat)
    requires
        hex(a, k) == hex(b, k),
    ensures
        hex(a, k).len() == k,
        k > 0 ==> a % 16 == b % 16,
        k > 0 ==> hex(a / 16, (k - 1) as nat) == hex(b / 16, (k - 1) as nat),
{
    hex_len(a, k);
    if k > 0 {
        let (x, y) = (hex(a, k), hex(b, k));
        hex_len(b, k);
        assert(x.last() == y.last());
        assert(x.drop_last() =~= hex(a / 16, (k - 1) as nat));
        assert(y.drop_last() =~= hex(b / 16, (k - 1) as nat));
    }
}

/// There are as many digits as asked for.
proof fn hex_len(n: nat, k: nat)
    ensures
        hex(n, k).len() == k,
    decreases k,
{
    if k > 0 {
        hex_len(n / 16, (k - 1) as nat);
    }
}

/// Sixteen to the power `k`.
spec fn power16(k: nat) -> nat
    decreases k,
{
    if k == 0 {
        1
    } else {
        16 * power16((k - 1) as nat)
    }
}

/// Numbers below sixteen to the power `k` with the same `k` digits are equal.
proof fn hex_injective(a: nat, b: nat, k: nat)
    requires
        hex(a, k) == hex(b, k),
        a < power16(k),
        b < power16(k),
    ensures
        a == b,
    decreases k,
{
    if k > 0 {
        hex_differs(a, b, k);
        hex_injective(a / 16, b / 16, (k - 1) as nat);
    }
}

/// A changed file, or another path with another hash, gets a thumbnail of another name.
pub proof fn thumb_names_tell_files_apart(
    h1: u64,
    s1: u64,
    t1: i64,
    h2: u64,
    s2: u64,
    t2: i64,
)
    requires
        thumb_name(h1, s1, t1) == thumb_name(h2, s2, t2),
    ensures
        h1 == h2,
        s1 == s2,
        t1 == t2,
{
    let (x, y) = (thumb_name(h1, s1, t1), thumb_name(h2, s2, t2));
    let (a, b) = (hex(h1 as nat, 16), hex(h2 as nat, 16));
    let (d, e) = (decimal(s1 as nat), decimal(s2 as nat));
    let (p, q) = (sign_text(t1 as int, false), sign_text(t2 as int, false));
    let (m, n) = (decimal(magnitude(t1 as int)), decimal(magnitude(t2 as int)));
    hex_len(h1 as nat, 16);
    hex_len(h2 as nat, 16);
    decimal_reads_back(s1 as nat);
    decimal_reads_back(s2 as nat);
    decimal_reads_back(magnitude(t1 as int));
    decimal_reads_back(magnitude(t2 as int));
    let (u, v) = (p + m + ".jpg"@, q + n + ".jpg"@);
    assert(x =~= a + seq!['-'] + d + seq!['-'] + u);
    assert(y =~= b + seq!['-'] + e + seq!['-'] + v);
    assert(a =~= x.take(16));
    assert(b =~= y.take(16));
    reveal_with_fuel(power16, 17);
    hex_injective(h1 as nat, h2 as nat, 16);
    assert((a + seq!['-']).len() == 17);
    assert((b + seq!['-']).len() == 17);
    assert(x.skip(17) =~= d + seq!['-'] + u);
    assert(y.skip(17) =~= e + seq!['-'] + v);
    same_run(x, y, d, e, 17, u, v);
    assert(d =~= e);
    let k = 18 + d.len() as int;
    assert(x.skip(k) =~= u);
    assert(y.skip(k) =~= v);
    assert(u == v);
    reveal_strlit(".jpg");
    assert(m[0] == u[p.len() as int]);
    assert(n[0] == v[q.len() as int]);
    assert(is_digit(m[0]) && is_digit(n[0]));
    assert(p.len() == q.len()) by {
        if t1 < 0 && t2 >= 0 {
            assert(u[0] == '-');
            assert(v[0] == n[0]);
        }
        if t2 < 0 && t1 >= 0 {
            assert(v[0] == '-');
            assert(u[0] == m[0]);
        }
    }
    assert(p =~= q);
    assert(u.len() == p.len() + m.len() + 4);
    assert(v.len() == q.len() + n.len() + 4);
    assert(m =~= u.subrange(p.len() as int, u.len() - 4));
    assert(n =~= v.subrange(q.len() as int, v.len() - 4));
    assert(m == n);
}

/// Digits that stand at the same place and are followed by a dash are the same.
proof fn same_run(
    x: Seq<char>,
    y: Seq<char>,
    d: Seq<char>,
    e: Seq<char>,
    at: int,
    u: Seq<char>,
    v: Seq<char>,
)
    requires
        x == y,
        at >= 0,
        all_digits(d),
        all_digits(e),
        x.len() == at + d.len() + 1 + u.len(),
        y.len() == at + e.len() + 1 + v.len(),
        x.skip(at) == d + seq!['-'] + u,
        y.skip(at) == e + seq!['-'] + v,
    ensures
        d.len() == e.len(),
        d == e,
{
    let (f, g) = (x.skip(at), y.skip(at));
    assert((d + seq!['-']).len() == d.len() + 1);
    assert((e + seq!['-']).len() == e.len() + 1);
    assert(f[d.len() as int] == '-');
    assert(g[e.len() as int] == '-');
    if d.len() < e.len() {
        assert(g[d.len() as int] == e[d.len() as int]);
        assert(is_digit(e[d.len() as int]));
    } else if e.len() < d.len() {
        assert(f[e.len() as int] == d[e.len() as int]);
        assert(is_digit(d[e.len() as int]));
    }
    assert(d =~= f.take(d.len() as int));
    assert(e =~= g.take(e.len() as int));
}

/// Hexadecimal digits go from `0` to `9` and from `a` to `f`, and the last of them tells the number's
/// rest by 16.
pub proof fn hexadecimal_digits(d: int, n: nat, k: nat)
    requires
        k > 0,
    ensures
        0 <= d < 10 ==> hex_char(d) as int == '0' as int + d,
        10 <= d < 16 ==> hex_char(d) as int == 'a' as int + (d - 10),
        hex(n, k).last() == hex_char(n as int % 16),
        hex(n, k).drop_last() == hex(n / 16, (k - 1) as nat),
{
    assert(hex(n, k).drop_last() =~= hex(n / 16, (k - 1) as nat));
}

} // verus!
