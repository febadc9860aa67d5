//! Count, sum and sum of squares of a run of numbers, and their variance.
use crate::fixed::{round_div, rounded, rounded_is_near};
use vstd::prelude::*;

verus! {

/// The variance of `n` numbers with the given sum and sum of squares, in fixed point; zero for no
/// numbers.
pub open spec fn variance(n: int, total: int, squares: int) -> int {
    if n == 0 {
        0
    } else {
        rounded((n * squares - total * total) * 1_000_000, n * n)
    }
}

/// Count, sum and sum of squares.
#[derive(Debug, Clone, Copy)]
pub struct Moments {
    /// No number is larger.
    pub max: u64,
    pub n: u64,
    pub total: u128,
    pub squares: u128,
}

impl Moments {
    /// The parts agree with each other.
    pub open spec fn wf(&self) -> bool {
        let max = self.max as int;
        &&& 0 <= max <= 0x20_0000
        &&& self.n * max <= 0x10_0000_0000_0000
        &&& self.n <= 0x1_0000_0000
        &&& self.total <= self.n * max
        &&& self.squares <= self.n * (max * max)
        &&& self.total * self.total <= self.n * self.squares
    }

    /// No numbers yet; none will be larger than `max`.
    pub fn new(max: u64) -> (r: Self)
        requires
            max <= 0x20_0000,
        ensures
            r.wf(),
            r.max == max,
            r.n == 0,
            r.total == 0,
            r.squares == 0,
    {
        assert(0 * max == 0 && 0 * (max * max) == 0) by (nonlinear_arith);
        Moments { max, n: 0, total: 0, squares: 0 }
    }

    /// Takes in one more number.
    pub fn take_in(&mut self, v: u64)
        requires
            old(self).wf(),
            v <= old(self).max,
            old(self).n < 0x1_0000_0000,
            (old(self).n + 1) * old(self).max <= 0x10_0000_0000_0000,
        ensures
            final(self).wf(),
            final(self).max == old(self).max,
            final(self).n == old(self).n + 1,
            final(self).total == old(self).total + v,
            final(self).squares == old(self).squares + v * v,
    {
        let ghost m = self.max as int;
        let ghost n = self.n as int;
        let ghost t = self.total as int;
        let ghost q = self.squares as int;
        proof {
            assert(0 <= v * v <= m * m <= 0x400_0000_0000) by (nonlinear_arith)
                requires
                    0 <= v <= m,
                    m <= 0x20_0000,
            ;
            assert(n * (m * m) <= 0x1_0000_0000 * 0x400_0000_0000) by (nonlinear_arith)
                requires
                    0 <= n <= 0x1_0000_0000,
                    0 <= m * m <= 0x400_0000_0000,
            ;
            assert((n + 1) * m == n * m + m && (n + 1) * (m * m) == n * (m * m) + m * m)
                by (nonlinear_arith);
            mixed_term(t, q, v as int, n);
            assert((t + v) * (t + v) <= (n + 1) * (q + v * v)) by (nonlinear_arith)
                requires
                    t * t <= n * q,
                    2 * (t * v) <= q + n * (v * v),
                    (t + v) * (t + v) == t * t + 2 * (t * v) + v * v,
            ;
        }
        self.n = self.n + 1;
        self.total = self.total + v as u128;
        self.squares = self.squares + (v as u128) * (v as u128);
    }

    /// The variance of the numbers.
    pub fn variance(&self) -> (r: i64)
        requires
            self.wf(),
        ensures
            r == variance(self.n as int, self.total as int, self.squares as int),
            r >= 0,
    {
        if self.n == 0 {
            return 0;
        }
        proof {
            spread_bounds(self.n as int, self.total as int, self.squares as int, self.max as int);
        }
        let n: i128 = self.n as i128;
        let t: i128 = self.total as i128;
        let q: i128 = self.squares as i128;
        round_div((n * q - t * t) * 1_000_000, n * n) as i64
    }
}

/// Twice the product of a sum and a further term is at most what the squares allow.
proof fn mixed_term(t: int, q: int, v: int, m: int)
    requires
        m >= 0,
        t >= 0,
        v >= 0,
        q >= 0,
        t * t <= m * q,
    ensures
        2 * (t * v) <= q + m * (v * v),
        (t + v) * (t + v) == t * t + 2 * (t * v) + v * v,
{
    assert((t + v) * (t + v) == t * t + 2 * (t * v) + v * v) by (nonlinear_arith);
    if m == 0 {
        assert(t == 0) by (nonlinear_arith)
            requires
                t * t <= m * q,
                m == 0,
                t >= 0,
        ;
        assert(t * v == 0 && m * (v * v) == 0) by (nonlinear_arith)
            requires
                t == 0,
                m == 0,
        ;
    } else {
        let d = m * v - t;
        assert(d * d >= 0) by (nonlinear_arith);
        assert(d * d == m * (m * (v * v)) - 2 * (m * (t * v)) + t * t) by (nonlinear_arith)
            requires
                d == m * v - t,
        ;
        assert(2 * (t * v) <= q + m * (v * v)) by (nonlinear_arith)
            requires
                m > 0,
                2 * (m * (t * v)) <= m * (m * (v * v)) + m * q,
        ;
    }
}

/// The numbers that a variance is made of stay in range.
pub proof fn spread_bounds(n: int, total: int, squares: int, max: int)
    requires
        n > 0,
        0 <= max <= 0x20_0000,
        n * max <= 0x10_0000_0000_0000,
        n <= 0x1_0000_0000,
        0 <= total <= n * max,
        0 <= squares <= n * (max * max),
        total * total <= n * squares,
    ensures
        0 <= n * squares - total * total <= n * squares <= 0x100_0000_0000_0000_0000_0000_0000,
        0 <= total * total,
        squares <= n * squares,
        total <= 0x10_0000_0000_0000,
        0 < n * n <= 0x1_0000_0000_0000_0000,
        0 <= rounded((n * squares - total * total) * 1_000_000, n * n) <= 4_398_046_511_104_000_000,
{
    assert(0 < n * n <= 0x1_0000_0000_0000_0000) by (nonlinear_arith)
        requires
            0 < n <= 0x1_0000_0000,
    ;
    let a = n * max;
    assert(n * squares <= a * a) by (nonlinear_arith)
        requires
            squares <= n * (max * max),
            n > 0,
            a == n * max,
    ;
    assert(a * a <= 0x100_0000_0000_0000_0000_0000_0000) by (nonlinear_arith)
        requires
            0 <= a <= 0x10_0000_0000_0000,
    ;
    assert(a >= 0) by (nonlinear_arith)
        requires
            a == n * max,
            n > 0,
            max >= 0,
    ;
    assert(0 <= total * total) by (nonlinear_arith);
    assert(squares <= n * squares) by (nonlinear_arith)
        requires
            n > 0,
            squares >= 0,
    ;
    assert(max * max <= 0x400_0000_0000) by (nonlinear_arith)
        requires
            0 <= max <= 0x20_0000,
    ;
    let d = n * n;
    assert(n * squares <= 0x400_0000_0000 * d) by (nonlinear_arith)
        requires
            squares <= n * (max * max),
            max * max <= 0x400_0000_0000,
            n > 0,
            d == n * n,
    ;
    let b = (n * squares - total * total) * 1_000_000;
    assert(0 <= (2 * b + d) / (2 * d) <= 4_398_046_511_104_000_000) by (nonlinear_arith)
        requires
            0 <= b <= 4_398_046_511_104_000_000 * d,
            d > 0,
    ;
}

/// The variance is the mean of the squares less the square of the mean, to the nearest millionth. It is
/// nothing for numbers that are all the same.
pub proof fn variance_is_the_spread(n: int, total: int, squares: int, v: int)
    requires
        n > 0,
    ensures
        -(n * n) <= 2 * (variance(n, total, squares) * (n * n) - 1_000_000 * (n * squares - total
            * total)) <= n * n,
        variance(n, n * v, n * (v * v)) == 0,
{
    assert(n * n > 0) by (nonlinear_arith)
        requires
            n > 0,
    ;
    rounded_is_near((n * squares - total * total) * 1_000_000, n * n);
    assert(n * (n * (v * v)) - (n * v) * (n * v) == 0) by (nonlinear_arith);
    let z = rounded(0, n * n);
    rounded_is_near(0, n * n);
    assert(z == 0) by (nonlinear_arith)
        requires
            -(n * n) <= 2 * (z * (n * n) - 0) <= n * n,
            n * n > 0,
    ;
}

/// Taking in one more number keeps the sum of the squares large enough for the sum.
pub proof fn one_more_number(n: int, total: int, squares: int, v: int)
    requires
        n >= 0,
        total >= 0,
        squares >= 0,
        v >= 0,
        total * total <= n * squares,
    ensures
        (total + v) * (total + v) <= (n + 1) * (squares + v * v),
{
    mixed_term(total, squares, v, n);
    assert((n + 1) * (squares + v * v) == n * squares + n * (v * v) + squares + v * v) by (nonlinear_arith);
}

} // verus!
