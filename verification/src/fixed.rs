//! Fixed-point scalars.
//!
//! A scalar stores `value * SCALE` in an `i64`; multiplication and division
//! rescale with truncating (round-toward-zero) integer division, and the
//! square root is the integer square root of the rescaled radicand.  The
//! spec functions here are the mathematical model every contract of the
//! crate is stated over.

use vstd::prelude::*;

verus! {

/// Every scalar of the tracer stores `value * SCALE`.
pub const SCALE: i64 = 65536;

/// Magnitude bound on the arguments of the generic scalar operations,
/// chosen so that no intermediate product leaves `i64`.
pub const FX_LIM: i64 = 0x8000_0000;

/// Truncating (round-toward-zero) division; the convention every scalar
/// operation of this crate uses.
pub open spec fn div_trunc(n: int, d: int) -> int
    recommends
        d != 0,
{
    let q = (vstd::math::abs(n) / vstd::math::abs(d)) as int;
    if (n >= 0) == (d >= 0) {
        q
    } else {
        -q
    }
}

/// Fixed-point product: `a * b` rescaled by `SCALE`.
pub open spec fn fx_mul(a: int, b: int) -> int {
    div_trunc(a * b, SCALE as int)
}

/// Fixed-point quotient: `a / b` rescaled by `SCALE`.
pub open spec fn fx_div(a: int, b: int) -> int
    recommends
        b != 0,
{
    div_trunc(a * SCALE, b)
}

/// Integer square root (floor of the real square root) of a non-negative
/// integer, by the classical digit-recurrence on `n / 4`.
pub open spec fn sqrt_floor(n: int) -> int
    decreases n,
{
    if n <= 0 {
        0
    } else if n < 4 {
        1
    } else {
        let s = 2 * sqrt_floor(n / 4);
        if (s + 1) * (s + 1) <= n {
            s + 1
        } else {
            s
        }
    }
}

/// Fixed-point square root: the root of `n` rescaled so that the result is
/// again a `SCALE`-scaled scalar.
pub open spec fn fx_sqrt(n: int) -> int {
    sqrt_floor(n * SCALE)
}

/// `sqrt_floor` is the floor of the real square root: it is the unique
/// non-negative `r` with `r * r <= n < (r + 1) * (r + 1)`.
pub proof fn lemma_sqrt_floor(n: int)
    requires
        n >= 0,
    ensures
        sqrt_floor(n) >= 0,
        sqrt_floor(n) * sqrt_floor(n) <= n,
        n < (sqrt_floor(n) + 1) * (sqrt_floor(n) + 1),
    decreases n,
{
    if n <= 0 {
        let sf = sqrt_floor(n);
        assert(sf == 0);
        assert(sf * sf <= 0 && 0 < (sf + 1) * (sf + 1)) by (nonlinear_arith)
            requires
                sf == 0;
    } else if n < 4 {
        let sf = sqrt_floor(n);
        assert(sf == 1);
        assert(sf * sf <= n && n < (sf + 1) * (sf + 1)) by (nonlinear_arith)
            requires
                sf == 1,
                1 <= n < 4;
    } else {
        let m = n / 4;
        lemma_sqrt_floor(m);
        let r = sqrt_floor(m);
        let s = 2 * r;
        vstd::arithmetic::div_mod::lemma_fundamental_div_mod(n, 4);
        vstd::arithmetic::div_mod::lemma_mod_bound(n, 4);
        assert(4 * m <= n < 4 * (m + 1));
        assert(s * s <= 4 * m) by (nonlinear_arith)
            requires
                r * r <= m,
                s == 2 * r;
        assert(n < (s + 2) * (s + 2)) by (nonlinear_arith)
            requires
                m < (r + 1) * (r + 1),
                s == 2 * r,
                n < 4 * (m + 1);
        let sf = sqrt_floor(n);
        if (s + 1) * (s + 1) <= n {
            assert(sf == s + 1);
            assert(sf * sf <= n && n < (sf + 1) * (sf + 1)) by (nonlinear_arith)
                requires
                    sf == s + 1,
                    (s + 1) * (s + 1) <= n,
                    n < (s + 2) * (s + 2);
        } else {
            assert(sf == s);
            assert(sf * sf <= n && n < (sf + 1) * (sf + 1)) by (nonlinear_arith)
                requires
                    sf == s,
                    s * s <= n,
                    !((s + 1) * (s + 1) <= n);
        }
    }
}

/// The square-root characterization pins the value: two non-negative roots
/// of the same radicand are equal.
pub proof fn lemma_sqrt_unique(n: int, a: int, b: int)
    requires
        a >= 0,
        b >= 0,
        a * a <= n,
        n < (a + 1) * (a + 1),
        b * b <= n,
        n < (b + 1) * (b + 1),
    ensures
        a == b,
{
    assert(a == b) by (nonlinear_arith)
        requires
            a >= 0,
            b >= 0,
            a * a <= n,
            n < (a + 1) * (a + 1),
            b * b <= n,
            n < (b + 1) * (b + 1);
}

/// Truncating division on `i128`, matching `div_trunc`.
pub fn div_trunc_i128(n: i128, d: i128) -> (q: i128)
    requires
        d != 0,
        n > i128::MIN,
        d > i128::MIN,
    ensures
        q as int == div_trunc(n as int, d as int),
{
    let na: u128 = if n >= 0 {
        n as u128
    } else {
        (-n) as u128
    };
    let da: u128 = if d >= 0 {
        d as u128
    } else {
        (-d) as u128
    };
    let qa: u128 = na / da;
    proof {
        assert(na as int == vstd::math::abs(n as int));
        assert(da as int == vstd::math::abs(d as int));
        assert(qa as int == vstd::math::abs(n as int) / vstd::math::abs(d as int));
        vstd::arithmetic::div_mod::lemma_div_nonincreasing(na as int, da as int);
        vstd::arithmetic::div_mod::lemma_div_pos_is_pos(na as int, da as int);
    }
    if (n >= 0) == (d >= 0) {
        qa as i128
    } else {
        -(qa as i128)
    }
}

/// Fixed-point product of two scalars within `FX_LIM`.
pub fn mul_fx(a: i64, b: i64) -> (r: i64)
    requires
        -FX_LIM <= a <= FX_LIM,
        -FX_LIM <= b <= FX_LIM,
    ensures
        r as int == fx_mul(a as int, b as int),
        -0x4000_0000_0000 <= r <= 0x4000_0000_0000,
{
    proof {
        assert(-0x4000_0000_0000_0000 <= (a as int) * (b as int) <= 0x4000_0000_0000_0000)
            by (nonlinear_arith)
            requires
                -0x8000_0000 <= a as int <= 0x8000_0000,
                -0x8000_0000 <= b as int <= 0x8000_0000;
    }
    let p: i128 = (a as i128) * (b as i128);
    let q: i128 = div_trunc_i128(p, SCALE as i128);
    proof {
        assert(0x4000_0000_0000 * 0x10000 == 0x4000_0000_0000_0000) by (nonlinear_arith);
        lemma_div_trunc_scaled(p as int, 65536, 0x4000_0000_0000);
    }
    q as i64
}

/// Fixed-point quotient; the numerator is bounded so that the rescaled
/// quotient fits in an `i64`, the denominator must be nonzero.
pub fn div_fx(a: i64, b: i64) -> (r: i64)
    requires
        b != 0,
        -0x4100_0000_0000 <= a <= 0x4100_0000_0000,
    ensures
        r as int == fx_div(a as int, b as int),
{
    let p: i128 = (a as i128) * 65536;
    proof {
        assert(-0x4100_0000_0000_0000 <= p as int <= 0x4100_0000_0000_0000);
    }
    let q: i128 = div_trunc_i128(p, b as i128);
    proof {
        lemma_div_trunc_bound(p as int, b as int, 0x4100_0000_0000_0000);
    }
    q as i64
}

/// `|div_trunc(n, d)| <= |n|` for nonzero `d`, so a bound on the numerator
/// bounds the quotient.
pub proof fn lemma_div_trunc_bound(n: int, d: int, bound: int)
    requires
        d != 0,
        -bound <= n <= bound,
        bound >= 0,
    ensures
        -bound <= div_trunc(n, d) <= bound,
{
    let na = vstd::math::abs(n) as int;
    let da = vstd::math::abs(d) as int;
    vstd::arithmetic::div_mod::lemma_div_nonincreasing(na, da);
    vstd::arithmetic::div_mod::lemma_div_pos_is_pos(na, da);
}

/// A bound on the numerator scaled by the denominator bounds the truncating
/// quotient: `|n| <= b * d` gives `|div_trunc(n, d)| <= b`.
pub proof fn lemma_div_trunc_scaled(n: int, d: int, b: int)
    requires
        d >= 1,
        b >= 0,
        -(b * d) <= n <= b * d,
    ensures
        -b <= div_trunc(n, d) <= b,
{
    let na = vstd::math::abs(n) as int;
    let da = vstd::math::abs(d) as int;
    assert(da == d);
    assert(na <= b * d);
    vstd::arithmetic::div_mod::lemma_div_is_ordered(na, b * d, d);
    vstd::arithmetic::div_mod::lemma_div_by_multiple(b, d);
    vstd::arithmetic::div_mod::lemma_div_pos_is_pos(na, da);
}

/// The fixed-point product of scalars within `FX_LIM` keeps a middling
/// magnitude.
pub proof fn lemma_fx_mul_bound(a: int, b: int)
    requires
        -FX_LIM <= a <= FX_LIM,
        -FX_LIM <= b <= FX_LIM,
    ensures
        -0x4000_0000_0000 <= fx_mul(a, b) <= 0x4000_0000_0000,
{
    assert(-0x4000_0000_0000_0000 <= a * b <= 0x4000_0000_0000_0000) by (nonlinear_arith)
        requires
            -0x8000_0000 <= a <= 0x8000_0000,
            -0x8000_0000 <= b <= 0x8000_0000;
    assert(0x4000_0000_0000 * 0x10000 == 0x4000_0000_0000_0000) by (nonlinear_arith);
    lemma_div_trunc_scaled(a * b, 65536, 0x4000_0000_0000);
}

/// The truncating quotient's magnitude characterizes the division:
/// `|q| * d <= |n| < (|q| + 1) * d`.
pub proof fn lemma_div_trunc_char(n: int, d: int)
    requires
        d >= 1,
    ensures
        (vstd::math::abs(div_trunc(n, d)) as int) * d <= vstd::math::abs(n) as int,
        (vstd::math::abs(n) as int) < ((vstd::math::abs(div_trunc(n, d)) as int) + 1) * d,
{
    let an = vstd::math::abs(n) as int;
    vstd::arithmetic::div_mod::lemma_fundamental_div_mod(an, d);
    vstd::arithmetic::div_mod::lemma_mod_bound(an, d);
    vstd::arithmetic::div_mod::lemma_div_pos_is_pos(an, d);
    let q = an / d;
    assert(vstd::math::abs(div_trunc(n, d)) as int == q);
    assert(q * d == d * q) by (nonlinear_arith);
    assert((q + 1) * d == d * q + d) by (nonlinear_arith);
}

/// A fixed-point square sits just under the true square:
/// `fx_mul(x, x) * SCALE <= x * x < (fx_mul(x, x) + 1) * SCALE`.
pub proof fn lemma_fx_sq_char(x: int)
    ensures
        fx_mul(x, x) >= 0,
        fx_mul(x, x) * 65536 <= x * x,
        x * x < (fx_mul(x, x) + 1) * 65536,
{
    assert(x * x >= 0) by (nonlinear_arith);
    lemma_fx_square_nonneg(x);
    lemma_div_trunc_char(x * x, 65536);
    assert(vstd::math::abs(x * x) as int == x * x);
    assert(vstd::math::abs(div_trunc(x * x, 65536)) as int == div_trunc(x * x, 65536));
}

/// A fixed-point square is non-negative.
pub proof fn lemma_fx_square_nonneg(a: int)
    ensures
        fx_mul(a, a) >= 0,
{
    assert(a * a >= 0) by (nonlinear_arith);
    vstd::arithmetic::div_mod::lemma_div_pos_is_pos(vstd::math::abs(a * a) as int, 65536);
}

/// A lower witness for the square root floor: `m * m <= n` gives
/// `sqrt_floor(n) >= m`.
pub proof fn lemma_sqrt_at_least(m: int, n: int)
    requires
        0 <= m,
        m * m <= n,
    ensures
        sqrt_floor(n) >= m,
{
    lemma_sqrt_floor(n);
    assert(sqrt_floor(n) >= m) by (nonlinear_arith)
        requires
            0 <= m,
            m * m <= n,
            sqrt_floor(n) >= 0,
            n < (sqrt_floor(n) + 1) * (sqrt_floor(n) + 1);
}

/// An upper witness for the square root floor: `n < m * m` gives
/// `sqrt_floor(n) < m`.
pub proof fn lemma_sqrt_below(m: int, n: int)
    requires
        0 <= n,
        n < m * m,
        m >= 0,
    ensures
        sqrt_floor(n) < m,
{
    lemma_sqrt_floor(n);
    assert(sqrt_floor(n) < m) by (nonlinear_arith)
        requires
            0 <= m,
            n < m * m,
            sqrt_floor(n) >= 0,
            sqrt_floor(n) * sqrt_floor(n) <= n;
}

/// Zero divided by anything nonzero is zero.
pub proof fn lemma_div_of_zero(d: int)
    requires
        d != 0,
    ensures
        div_trunc(0, d) == 0,
{
    vstd::arithmetic::div_mod::lemma_div_of0(vstd::math::abs(d) as int);
}

/// A fixed-point product with zero is zero.
pub proof fn lemma_fx_mul_zero(a: int)
    ensures
        fx_mul(a, 0) == 0,
{
    assert(a * 0 == 0) by (nonlinear_arith);
    lemma_div_of_zero(65536);
}

/// A bound on the plain product gives the bound on the fixed-point product.
pub proof fn lemma_fx_mul_within(a: int, b: int, bound: int)
    requires
        bound >= 0,
        -(bound * 65536) <= a * b <= bound * 65536,
    ensures
        -bound <= fx_mul(a, b) <= bound,
{
    lemma_div_trunc_scaled(a * b, 65536, bound);
}

/// A numerator bound and a denominator floor bound the truncating quotient:
/// `|n| <= nb` and `d >= db` give `|div_trunc(n, d)| <= nb / db`.
pub proof fn lemma_div_trunc_denom(n: int, d: int, nb: int, db: int)
    requires
        1 <= db <= d,
        0 <= nb,
        -nb <= n <= nb,
    ensures
        -(nb / db) <= div_trunc(n, d) <= nb / db,
{
    let na = vstd::math::abs(n) as int;
    let da = vstd::math::abs(d) as int;
    assert(da == d);
    vstd::arithmetic::div_mod::lemma_div_is_ordered(na, nb, d);
    vstd::arithmetic::div_mod::lemma_div_is_ordered_by_denominator(nb, db, d);
    vstd::arithmetic::div_mod::lemma_div_pos_is_pos(na, da);
    vstd::arithmetic::div_mod::lemma_div_pos_is_pos(nb, db);
}

/// Truncating division by a positive divisor is monotone in the numerator.
pub proof fn lemma_div_trunc_monotone(n1: int, n2: int, d: int)
    requires
        d >= 1,
        n1 <= n2,
    ensures
        div_trunc(n1, d) <= div_trunc(n2, d),
{
    let a1 = vstd::math::abs(n1) as int;
    let a2 = vstd::math::abs(n2) as int;
    let da = vstd::math::abs(d) as int;
    assert(da == d);
    if n1 >= 0 {
        vstd::arithmetic::div_mod::lemma_div_is_ordered(a1, a2, d);
    } else if n2 < 0 {
        vstd::arithmetic::div_mod::lemma_div_is_ordered(a2, a1, d);
    } else {
        vstd::arithmetic::div_mod::lemma_div_pos_is_pos(a1, d);
        vstd::arithmetic::div_mod::lemma_div_pos_is_pos(a2, d);
    }
}

/// Integer square root of a `u128`, by binary search.
pub fn isqrt_u128(n: u128) -> (r: u128)
    requires
        n < 0x4000_0000_0000_0000_0000_0000_0000_0000,
    ensures
        r as int == sqrt_floor(n as int),
        r < 0x8000_0000_0000_0000,
{
    let mut lo: u128 = 0;
    let mut hi: u128 = 0x8000_0000_0000_0000;
    proof {
        assert((hi as int) * (hi as int) == 0x4000_0000_0000_0000_0000_0000_0000_0000)
            by (nonlinear_arith)
            requires
                hi == 0x8000_0000_0000_0000u128;
    }
    while lo + 1 < hi
        invariant
            lo < hi,
            hi <= 0x8000_0000_0000_0000,
            (lo as int) * (lo as int) <= n as int,
            (n as int) < (hi as int) * (hi as int),
        decreases hi - lo,
    {
        let mid: u128 = lo + (hi - lo) / 2;
        proof {
            assert(lo < mid < hi);
            assert((mid as int) * (mid as int)
                < 0x4000_0000_0000_0000_0000_0000_0000_0000) by (nonlinear_arith)
                requires
                    mid < 0x8000_0000_0000_0000u128;
        }
        if mid * mid <= n {
            lo = mid;
        } else {
            hi = mid;
        }
    }
    proof {
        lemma_sqrt_floor(n as int);
        assert(hi == lo + 1);
        lemma_sqrt_unique(n as int, lo as int, sqrt_floor(n as int));
    }
    lo
}

/// Fixed-point square root of a non-negative scalar within the generic
/// operating range.
pub fn sqrt_fx(n: i64) -> (r: i64)
    requires
        0 <= n,
    ensures
        r as int == fx_sqrt(n as int),
        0 <= r,
{
    let wide: u128 = (n as u128) * 65536;
    proof {
        assert(wide as int == (n as int) * 0x10000);
        assert(wide < 0x8000_0000_0000_0000_0000u128);
    }
    let root: u128 = isqrt_u128(wide);
    proof {
        lemma_sqrt_floor(wide as int);
        assert(root < 0x100_0000_0000) by (nonlinear_arith)
            requires
                (root as int) * (root as int) <= wide as int,
                wide < 0x8000_0000_0000_0000_0000u128;
    }
    root as i64
}

} // verus!
