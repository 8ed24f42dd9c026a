//! Shaping of the ramp from the bar to the work set.
//!
//! A progression of `n + 1` sets spaced over a span of `d` weight units
//! takes, at step `i`, some number of 5-unit ticks above the bar. With the
//! linear shape that number is `ceil(i * d / (5 * n))`; with the sine shape
//! it is `floor(d * sin(pi * i / (2 * n)) / 5)`. Both are computed exactly,
//! in integers. For the step counts that a progression can have (one to
//! five), `sin^2` of every angle involved is `(u + sqrt(w)) / q` or
//! `(u - sqrt(w)) / q` for small integers `q`, `u`, `w`, which turns each
//! comparison with the sine into a comparison of integer polynomials.
use vstd::prelude::*;

verus! {

/// Largest weight, in units, that a progression may reach: the exact
/// comparisons with the sine are made in 128-bit integers.
pub const MAX_WEIGHT: u32 = 268435456;

/// Most steps between the first and the last set.
pub const MAX_STEPS: u32 = 5;

/// The shaping function of a progression.
#[derive(Clone, Copy, Debug, PartialEq, Eq, Structural)]
pub enum Distribution {
    /// Even steps, each rounded up to a whole tick.
    Linear,
    /// An eased ramp, `d * sin(pi/2 * i/n)`, rounded down to a whole tick.
    Sin,
}

/// The square of a sine as `(u + sqrt(w)) / q` when `plus` holds, and as
/// `(u - sqrt(w)) / q` otherwise.
#[derive(Clone, Copy, Debug, PartialEq, Eq, Structural)]
pub struct SineSquare {
    pub q: u64,
    pub u: u64,
    pub w: u64,
    pub plus: bool,
}

pub open spec fn sine_square_of(q: u64, u: u64, w: u64, plus: bool) -> SineSquare {
    SineSquare { q, u, w, plus }
}

/// `sin^2(pi * i / (2 * n))` for `0 <= i <= n <= 5`.
pub open spec fn sine_square(i: int, n: int) -> SineSquare {
    if i == 0 {
        sine_square_of(1, 0, 0, false)
    } else if i == n {
        sine_square_of(1, 1, 0, false)
    } else if 2 * i == n {
        sine_square_of(2, 1, 0, false)
    } else if 3 * i == n {
        sine_square_of(4, 1, 0, false)
    } else if 3 * i == 2 * n {
        sine_square_of(4, 3, 0, false)
    } else if 4 * i == n {
        sine_square_of(4, 2, 2, false)
    } else if 4 * i == 3 * n {
        sine_square_of(4, 2, 2, true)
    } else if 5 * i == n {
        sine_square_of(8, 3, 5, false)
    } else if 5 * i == 2 * n {
        sine_square_of(8, 5, 5, false)
    } else if 5 * i == 3 * n {
        sine_square_of(8, 3, 5, true)
    } else {
        sine_square_of(8, 5, 5, true)
    }
}

/// The shapes of `sine_square`: a value in `[0, 1]` with small coefficients.
pub open spec fn sine_square_bounded(s: SineSquare) -> bool {
    &&& 1 <= s.q <= 8
    &&& s.u <= 5
    &&& s.w <= 5
    &&& s.u <= s.q
    &&& s.plus ==> s.u + 2 <= s.q && s.w <= 2 * (s.q - s.u)
    &&& !s.plus ==> s.w == 0 || (2 <= s.u && s.w <= 2 * s.u)
}

/// `a <= d * sqrt(s)`, for `a, d >= 0`: squared, `q * a^2 <= (u +- sqrt(w)) * d^2`.
pub open spec fn within(a: int, d: int, s: SineSquare) -> bool {
    let lhs = s.q * (a * a);
    let rhs = s.u * (d * d);
    let root = s.w * ((d * d) * (d * d));
    if s.plus {
        lhs <= rhs || (lhs - rhs) * (lhs - rhs) <= root
    } else {
        lhs <= rhs && root <= (rhs - lhs) * (rhs - lhs)
    }
}

/// `t` is `floor(d * sin(pi * i / (2 * n)) / 5)`.
pub open spec fn is_sine_ticks(d: int, i: int, n: int, t: int) -> bool {
    &&& 0 <= t
    &&& within(5 * t, d, sine_square(i, n))
    &&& !within(5 * t + 5, d, sine_square(i, n))
}

/// `t` is `ceil(i * d / (5 * n))`.
pub open spec fn is_linear_ticks(d: int, i: int, n: int, t: int) -> bool {
    &&& 5 * n * (t - 1) < i * d
    &&& i * d <= 5 * n * t
}

/// `t` is the number of ticks above the bar at step `i` of `n`.
pub open spec fn is_ticks(dist: Distribution, d: int, i: int, n: int, t: int) -> bool {
    match dist {
        Distribution::Linear => is_linear_ticks(d, i, n, t),
        Distribution::Sin => is_sine_ticks(d, i, n, t),
    }
}

proof fn lemma_sine_square_bounded(i: int, n: int)
    requires
        1 <= n <= 5,
        0 <= i <= n,
    ensures
        sine_square_bounded(sine_square(i, n)),
{
}

/// A larger `a` stays within the bound only if a smaller one does.
proof fn lemma_within_monotone(a: int, b: int, d: int, s: SineSquare)
    requires
        0 <= a <= b,
        0 <= d,
        sine_square_bounded(s),
        within(b, d, s),
    ensures
        within(a, d, s),
{
    let lhs_a = s.q * (a * a);
    let lhs_b = s.q * (b * b);
    let rhs = s.u * (d * d);
    let root = s.w * ((d * d) * (d * d));
    assert(lhs_a <= lhs_b) by (nonlinear_arith)
        requires
            0 <= a <= b,
            0 <= s.q,
            lhs_a == s.q * (a * a),
            lhs_b == s.q * (b * b),
    ;
    if s.plus {
        if lhs_a > rhs {
            assert((lhs_a - rhs) * (lhs_a - rhs) <= (lhs_b - rhs) * (lhs_b - rhs)) by (nonlinear_arith)
                requires
                    0 < lhs_a - rhs <= lhs_b - rhs,
            ;
        }
    } else {
        assert((rhs - lhs_b) * (rhs - lhs_b) <= (rhs - lhs_a) * (rhs - lhs_a)) by (nonlinear_arith)
            requires
                0 <= rhs - lhs_b <= rhs - lhs_a,
        ;
    }
}

/// Nothing beyond `d` is within `d` times a sine.
proof fn lemma_within_at_most(a: int, d: int, s: SineSquare)
    requires
        0 <= d < a,
        sine_square_bounded(s),
    ensures
        !within(a, d, s),
{
    let aa = a * a;
    let dd = d * d;
    let lhs = s.q * aa;
    let rhs = s.u * dd;
    let root = s.w * (dd * dd);
    assert(dd < aa) by (nonlinear_arith)
        requires
            0 <= d < a,
            aa == a * a,
            dd == d * d,
    ;
    assert(lhs - rhs > (s.q - s.u) * dd) by (nonlinear_arith)
        requires
            0 <= dd < aa,
            1 <= s.q,
            0 <= s.u,
            lhs == s.q * aa,
            rhs == s.u * dd,
    ;
    if s.plus {
        let k = (s.q - s.u) * dd;
        assert(k >= 0) by (nonlinear_arith)
            requires
                s.u < s.q,
                0 <= dd,
                k == (s.q - s.u) * dd,
        ;
        assert((lhs - rhs) * (lhs - rhs) > k * k) by (nonlinear_arith)
            requires
                0 <= k < lhs - rhs,
        ;
        assert(k * k >= root) by (nonlinear_arith)
            requires
                k == (s.q - s.u) * dd,
                root == s.w * (dd * dd),
                0 <= s.w <= 2 * (s.q - s.u),
                2 <= s.q - s.u,
                0 <= dd,
        ;
    } else {
        assert((s.q - s.u) * dd >= 0) by (nonlinear_arith)
            requires
                s.u <= s.q,
                0 <= dd,
        ;
    }
}

/// No ticks at all are always within the bound.
proof fn lemma_within_zero(d: int, s: SineSquare)
    requires
        0 <= d,
        sine_square_bounded(s),
    ensures
        within(0, d, s),
{
    let dd = d * d;
    let rhs = s.u * dd;
    assert(rhs >= 0) by (nonlinear_arith)
        requires
            0 <= s.u,
            0 <= dd,
            rhs == s.u * dd,
    ;
    if !s.plus {
        assert(s.w * (dd * dd) <= rhs * rhs) by (nonlinear_arith)
            requires
                s.w == 0 || (2 <= s.u && s.w <= 2 * s.u),
                0 <= s.w,
                0 <= dd,
                rhs == s.u * dd,
        ;
    }
    assert(s.q * (0 * 0) == 0) by (nonlinear_arith);
}

/// There is one tick count at each step of a sine ramp.
pub proof fn lemma_sine_ticks_unique(d: int, i: int, n: int, t1: int, t2: int)
    requires
        0 <= d,
        1 <= n <= 5,
        0 <= i <= n,
        is_sine_ticks(d, i, n, t1),
        is_sine_ticks(d, i, n, t2),
    ensures
        t1 == t2,
{
    lemma_sine_square_bounded(i, n);
    if t1 < t2 {
        lemma_within_monotone(5 * t1 + 5, 5 * t2, d, sine_square(i, n));
    } else if t2 < t1 {
        lemma_within_monotone(5 * t2 + 5, 5 * t1, d, sine_square(i, n));
    }
}

/// There is one tick count at each step of a linear ramp.
pub proof fn lemma_linear_ticks_unique(d: int, i: int, n: int, t1: int, t2: int)
    requires
        1 <= n,
        is_linear_ticks(d, i, n, t1),
        is_linear_ticks(d, i, n, t2),
    ensures
        t1 == t2,
{
    if t1 < t2 {
        assert(5 * n * t1 <= 5 * n * (t2 - 1)) by (nonlinear_arith)
            requires
                t1 <= t2 - 1,
                1 <= n,
        ;
    } else if t2 < t1 {
        assert(5 * n * t2 <= 5 * n * (t1 - 1)) by (nonlinear_arith)
            requires
                t2 <= t1 - 1,
                1 <= n,
        ;
    }
}

/// `sin^2(pi * i / (2 * n))`.
fn sine_square_at(i: u32, n: u32) -> (r: SineSquare)
    requires
        1 <= n <= MAX_STEPS,
        i <= n,
    ensures
        r == sine_square(i as int, n as int),
{
    if i == 0 {
        SineSquare { q: 1, u: 0, w: 0, plus: false }
    } else if i == n {
        SineSquare { q: 1, u: 1, w: 0, plus: false }
    } else if 2 * i == n {
        SineSquare { q: 2, u: 1, w: 0, plus: false }
    } else if 3 * i == n {
        SineSquare { q: 4, u: 1, w: 0, plus: false }
    } else if 3 * i == 2 * n {
        SineSquare { q: 4, u: 3, w: 0, plus: false }
    } else if 4 * i == n {
        SineSquare { q: 4, u: 2, w: 2, plus: false }
    } else if 4 * i == 3 * n {
        SineSquare { q: 4, u: 2, w: 2, plus: true }
    } else if 5 * i == n {
        SineSquare { q: 8, u: 3, w: 5, plus: false }
    } else if 5 * i == 2 * n {
        SineSquare { q: 8, u: 5, w: 5, plus: false }
    } else if 5 * i == 3 * n {
        SineSquare { q: 8, u: 3, w: 5, plus: true }
    } else {
        SineSquare { q: 8, u: 5, w: 5, plus: true }
    }
}

/// Decides `within(a, d, s)` in 128-bit arithmetic.
fn is_within(a: u64, d: u64, s: SineSquare) -> (r: bool)
    requires
        a <= 2 * MAX_WEIGHT,
        d <= MAX_WEIGHT,
        sine_square_bounded(s),
    ensures
        r == within(a as int, d as int, s),
{
    let a = a as u128;
    let d = d as u128;
    assert(a * a <= 0x2000_0000 * 0x2000_0000) by (nonlinear_arith)
        requires
            a <= 0x2000_0000,
    ;
    assert(d * d <= 0x1000_0000 * 0x1000_0000) by (nonlinear_arith)
        requires
            d <= 0x1000_0000,
    ;
    let aa = a * a;
    let dd = d * d;
    assert(dd * dd <= 0x100_0000_0000_0000 * 0x100_0000_0000_0000) by (nonlinear_arith)
        requires
            dd <= 0x100_0000_0000_0000,
    ;
    assert(s.q as u128 * aa <= 8 * 0x400_0000_0000_0000) by (nonlinear_arith)
        requires
            s.q <= 8,
            aa <= 0x400_0000_0000_0000,
    ;
    assert(s.u as u128 * dd <= 5 * 0x100_0000_0000_0000) by (nonlinear_arith)
        requires
            s.u <= 5,
            dd <= 0x100_0000_0000_0000,
    ;
    assert(s.w as u128 * (dd * dd) <= 5 * 0x1_0000_0000_0000_0000_0000_0000_0000) by (nonlinear_arith)
        requires
            s.w <= 5,
            dd * dd <= 0x1_0000_0000_0000_0000_0000_0000_0000,
    ;
    let lhs = s.q as u128 * aa;
    let rhs = s.u as u128 * dd;
    let root = s.w as u128 * (dd * dd);
    if s.plus {
        if lhs <= rhs {
            true
        } else {
            let e = lhs - rhs;
            assert(e * e <= 0x2000_0000_0000_0000 * 0x2000_0000_0000_0000) by (nonlinear_arith)
                requires
                    e <= 0x2000_0000_0000_0000,
            ;
            e * e <= root
        }
    } else {
        if lhs > rhs {
            false
        } else {
            let e = rhs - lhs;
            assert(e * e <= 0x500_0000_0000_0000 * 0x500_0000_0000_0000) by (nonlinear_arith)
                requires
                    e <= 0x500_0000_0000_0000,
            ;
            root <= e * e
        }
    }
}

/// `floor(d * sin(pi * i / (2 * n)) / 5)`, the ticks of step `i` of a sine ramp.
pub fn sine_ticks(d: u32, i: u32, n: u32) -> (t: u32)
    requires
        d <= MAX_WEIGHT,
        1 <= n <= MAX_STEPS,
        i <= n,
    ensures
        is_sine_ticks(d as int, i as int, n as int, t as int),
        5 * t <= d,
{
    let s = sine_square_at(i, n);
    proof {
        lemma_sine_square_bounded(i as int, n as int);
        lemma_within_zero(d as int, s);
        lemma_within_at_most(5 * (d / 5 + 1), d as int, s);
    }
    let mut lo: u32 = 0;
    let mut hi: u32 = d / 5 + 1;
    while hi - lo > 1
        invariant
            0 <= lo < hi <= d / 5 + 1,
            d <= MAX_WEIGHT,
            s == sine_square(i as int, n as int),
            sine_square_bounded(s),
            within(5 * lo, d as int, s),
            !within(5 * hi, d as int, s),
        decreases hi - lo,
    {
        let mid = lo + (hi - lo) / 2;
        if is_within(5 * mid as u64, d as u64, s) {
            lo = mid;
        } else {
            hi = mid;
        }
    }
    lo
}

/// `ceil(i * d / (5 * n))`, the ticks of step `i` of a linear ramp.
pub fn linear_ticks(d: u32, i: u32, n: u32) -> (t: u32)
    requires
        d <= MAX_WEIGHT,
        1 <= n <= MAX_STEPS,
        i <= n,
    ensures
        is_linear_ticks(d as int, i as int, n as int, t as int),
        5 * t <= d + 4,
{
    assert(i * d <= 5 * MAX_WEIGHT) by (nonlinear_arith)
        requires
            i <= 5,
            d <= MAX_WEIGHT,
    ;
    let num = i as u64 * d as u64;
    let den = 5 * n as u64;
    assert(num <= n * d) by (nonlinear_arith)
        requires
            num == i * d,
            i <= n,
            0 <= d,
    ;
    assert(n * d <= 5 * MAX_WEIGHT) by (nonlinear_arith)
        requires
            n <= 5,
            d <= MAX_WEIGHT,
    ;
    let t = (num + den - 1) / den;
    assert(den * (t - 1) < num && num <= den * t) by (nonlinear_arith)
        requires
            t as int == (num as int + den as int - 1) / (den as int),
            den >= 5,
            num >= 0,
    ;
    assert(5 * t <= d + 4) by (nonlinear_arith)
        requires
            den * (t - 1) < num,
            num <= n * d,
            den == 5 * n,
            n >= 1,
            d >= 0,
    ;
    t as u32
}

/// The ticks of step `i` of `n` under `dist`.
pub fn ticks(dist: Distribution, d: u32, i: u32, n: u32) -> (t: u32)
    requires
        d <= MAX_WEIGHT,
        1 <= n <= MAX_STEPS,
        i <= n,
    ensures
        is_ticks(dist, d as int, i as int, n as int, t as int),
        5 * t <= d + 4,
{
    match dist {
        Distribution::Linear => linear_ticks(d, i, n),
        Distribution::Sin => sine_ticks(d, i, n),
    }
}

} // verus!
